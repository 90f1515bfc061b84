//! The console session: the agent talks with whoever sits at the terminal.

use vstd::prelude::*;
use vstd::string::*;
use vstd::utf8::encode_utf8;
use crate::bot::{Message, MessageView};
use crate::server::{closed, opened, Link, Server, SessionError};
use crate::text::{right_align, right_aligned};

verus! {

/// The channel that every console line is said on.
pub const SHELL_SERVER_CHANNEL: &'static str = "#shell";

/// The nick of whoever sits at the console.
pub const SHELL_SERVER_NICK: &'static str = "you";

/// The length of `s` in bytes, as UTF-8.
pub open spec fn byte_length(s: Seq<char>) -> usize {
    encode_utf8(s).len() as usize
}

/// The width, in characters, of the name column of the console: the length
/// in bytes of the agent's name or of the console's nick, whichever is more.
pub open spec fn name_column(name: Seq<char>) -> usize {
    if byte_length(name) > byte_length(SHELL_SERVER_NICK@) {
        byte_length(name)
    } else {
        byte_length(SHELL_SERVER_NICK@)
    }
}

/// What the console shows before it reads a line.
pub open spec fn prompt_text(width: usize) -> Seq<char> {
    right_aligned(SHELL_SERVER_NICK@, width as nat) + SHELL_SERVER_CHANNEL@ + "> "@
}

/// What the console shows for `message` said by the agent on `channel`.
pub open spec fn console_line(
    name: Seq<char>,
    width: usize,
    channel: Seq<char>,
    message: Seq<char>,
) -> Seq<char> {
    right_aligned(name, width as nat) + channel + "> "@ + message + "\n"@
}

/// The message that a line read from the console is.
pub open spec fn console_message(line: Seq<char>) -> MessageView {
    MessageView { channel: SHELL_SERVER_CHANNEL@, nick: SHELL_SERVER_NICK@, message: line }
}

/// The console session: the agent's name, the width of the name column, and
/// where the session stands in its life.
#[derive(Debug)]
pub struct Shell {
    name: String,
    width: usize,
    link: Link,
}

impl Shell {
    /// A console session for the agent called `name`, not opened yet.
    pub fn new(name: String) -> (shell: Shell)
        ensures
            shell.name() == name@,
            shell.width() == name_column(name@),
            shell.link() is Idle,
    {
        let width = if name.as_str().len() > SHELL_SERVER_NICK.len() {
            name.as_str().len()
        } else {
            SHELL_SERVER_NICK.len()
        };
        Shell { name, width, link: Link::Idle }
    }

    /// The agent's name.
    pub closed spec fn name(&self) -> Seq<char> {
        self.name@
    }

    /// The width of the name column.
    pub closed spec fn width(&self) -> usize {
        self.width
    }

    /// Where the session stands in its life.
    pub closed spec fn state(&self) -> Link {
        self.link
    }

    /// The same session at another stage of its life.
    pub closed spec fn with_link(self, link: Link) -> Shell {
        Shell { name: self.name, width: self.width, link }
    }

    /// Another stage of life changes nothing else about a session.
    pub proof fn lemma_with_link(self, link: Link)
        ensures
            self.with_link(link).state() == link,
            self.with_link(link).name() == self.name(),
            self.with_link(link).width() == self.width(),
            self.with_link(self.state()) == self,
    {
    }

    /// What to show before reading a line.
    pub fn prompt(&self) -> (text: String)
        ensures
            text@ == prompt_text(self.width()),
    {
        let mut text = right_align(SHELL_SERVER_NICK, self.width);
        text.append(SHELL_SERVER_CHANNEL);
        text.append("> ");
        text
    }

    /// The message that a line read from the console is.
    pub fn receive(line: String) -> (msg: Message)
        ensures
            msg@ == console_message(line@),
    {
        Message {
            channel: SHELL_SERVER_CHANNEL.to_owned(),
            nick: SHELL_SERVER_NICK.to_owned(),
            message: line,
        }
    }
}

impl Server for Shell {
    open spec fn link(&self) -> Link {
        self.state()
    }

    open spec fn outbound(&self, channel: Seq<char>, message: Seq<char>) -> Option<Seq<char>> {
        Some(console_line(self.name(), self.width(), channel, message))
    }

    fn connect(&mut self) -> (r: Result<(), SessionError>)
        ensures
            *final(self) == old(self).with_link(opened(old(self).link())),
    {
        match self.link {
            Link::Idle => {
                self.link = Link::Up;
                Ok(())
            },
            Link::Up => Err(SessionError::AlreadyConnected),
            Link::Down => Err(SessionError::Closed),
        }
    }

    fn disconnect(&mut self)
        ensures
            *final(self) == old(self).with_link(closed(old(self).link())),
    {
        match self.link {
            Link::Up => {
                self.link = Link::Down;
            },
            _ => {},
        }
    }

    fn is_connected(&self) -> (up: bool) {
        match self.link {
            Link::Up => true,
            _ => false,
        }
    }

    fn send(&self, channel: &str, message: &str) -> (out: Option<String>) {
        let mut line = right_align(self.name.as_str(), self.width);
        line.append(channel);
        line.append("> ");
        line.append(message);
        line.append("\n");
        Some(line)
    }
}

} // verus!
