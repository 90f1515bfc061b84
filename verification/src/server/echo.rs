//! The loopback session: a stand-in that talks to a local echo endpoint.

use vstd::prelude::*;
use vstd::string::*;
use crate::bot::{Message, MessageView};
use crate::server::{Link, Server, SessionError};
use crate::text::{
    chars_of, format_decimal, right_align, right_aligned, signed_decimal, trim_bounds, trimmed,
};

verus! {

/// The port of the echo endpoint where none is given.
pub const DEFAULT_ECHO_PORT: i32 = 8080;

/// The channel that every loopback line is said on.
pub const ECHO_CHANNEL: &'static str = "echo";

/// The nick of whoever types the loopback lines.
pub const ECHO_NICK: &'static str = "you";

/// The width, in characters, of the name column of the loopback prompt.
pub const ECHO_NAME_COLUMN: usize = 7;

/// The host of the echo endpoint.
pub const ECHO_HOST: &'static str = "127.0.0.1";

/// The address of the echo endpoint on `port`.
pub open spec fn echo_address(port: i32) -> Seq<char> {
    ECHO_HOST@ + ":"@ + signed_decimal(port as int)
}

/// What the loopback session shows before it reads a line.
pub open spec fn echo_prompt() -> Seq<char> {
    right_aligned(ECHO_NICK@, ECHO_NAME_COLUMN as nat) + "#"@ + ECHO_CHANNEL@ + "> "@
}

/// The message that a line typed into the loopback session is: the line
/// without the white space around it.
pub open spec fn echo_message(line: Seq<char>) -> MessageView {
    MessageView { channel: ECHO_CHANNEL@, nick: ECHO_NICK@, message: trimmed(line) }
}

/// The loopback session: the port of its endpoint, and where the session
/// stands in its life.
#[derive(Debug)]
pub struct Echo {
    port: i32,
    link: Link,
}

impl Echo {
    /// A loopback session on `port`, or on the default port where none is
    /// given; not opened yet.
    pub fn new(port: Option<i32>) -> (echo: Echo)
        ensures
            echo.port() == match port {
                Some(p) => p,
                None => DEFAULT_ECHO_PORT,
            },
            echo.link() is Idle,
    {
        let port = match port {
            Some(p) => p,
            None => DEFAULT_ECHO_PORT,
        };
        Echo { port, link: Link::Idle }
    }

    /// The port of the endpoint.
    pub closed spec fn port(&self) -> i32 {
        self.port
    }

    /// Where the session stands in its life.
    pub closed spec fn state(&self) -> Link {
        self.link
    }

    /// The port of the endpoint.
    pub fn endpoint_port(&self) -> (port: i32)
        ensures
            port == self.port(),
    {
        self.port
    }

    /// The address of the endpoint.
    pub fn address(&self) -> (addr: String)
        ensures
            addr@ == echo_address(self.port()),
    {
        let mut addr = String::new();
        addr.append(ECHO_HOST);
        addr.append(":");
        addr.append(format_decimal(self.port).as_str());
        addr
    }

    /// What to show before reading a line.
    pub fn prompt() -> (text: String)
        ensures
            text@ == echo_prompt(),
    {
        let mut text = right_align(ECHO_NICK, ECHO_NAME_COLUMN);
        text.append("#");
        text.append(ECHO_CHANNEL);
        text.append("> ");
        text
    }

    /// The message that a typed line is.
    pub fn receive(line: &str) -> (msg: Message)
        ensures
            msg@ == echo_message(line@),
    {
        let chars = chars_of(line);
        let (from, to) = trim_bounds(&chars);
        Message {
            channel: ECHO_CHANNEL.to_owned(),
            nick: ECHO_NICK.to_owned(),
            message: line.substring_char(from, to).to_owned(),
        }
    }
}

impl Default for Echo {
    fn default() -> (echo: Echo)
        ensures
            echo.port() == DEFAULT_ECHO_PORT,
            echo.link() is Idle,
    {
        Echo::new(None)
    }
}

impl Server for Echo {
    open spec fn link(&self) -> Link {
        self.state()
    }

    open spec fn outbound(&self, channel: Seq<char>, message: Seq<char>) -> Option<Seq<char>> {
        None
    }

    fn connect(&mut self) -> (r: Result<(), SessionError>)
        ensures
            final(self).port() == old(self).port(),
    {
        match self.link {
            Link::Idle => {
                self.link = Link::Up;
                Ok(())
            },
            Link::Up => Err(SessionError::AlreadyConnected),
            Link::Down => Err(SessionError::Closed),
        }
    }

    fn disconnect(&mut self)
        ensures
            final(self).port() == old(self).port(),
    {
        match self.link {
            Link::Up => {
                self.link = Link::Down;
            },
            _ => {},
        }
    }

    fn is_connected(&self) -> (up: bool) {
        match self.link {
            Link::Up => true,
            _ => false,
        }
    }

    fn send(&self, channel: &str, message: &str) -> (out: Option<String>) {
        None
    }
}

} // verus!
