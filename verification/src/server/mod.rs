//! Sessions: the backends the agent talks through, and the life cycle they
//! share.

use vstd::prelude::*;
use crate::server::irc::Irc;
use crate::server::shell::Shell;

pub mod echo;
pub mod irc;
pub mod shell;

verus! {

/// Where a session stands in its life. A session is opened at most once and
/// closed at most once: it goes from `Idle` to `Up` to `Down`, and never
/// back.
#[derive(Debug, Clone, Copy, PartialEq, Eq, Structural)]
pub enum Link {
    /// Not opened yet.
    Idle,
    /// Open: the session reads and writes.
    Up,
    /// Closed for good.
    Down,
}

/// Why a session was not opened.
#[derive(Debug, Clone, Copy, PartialEq, Eq, Structural)]
pub enum SessionError {
    /// The session is open already.
    AlreadyConnected,
    /// The session has been closed.
    Closed,
}

/// Where a session stands after an attempt to open it.
pub open spec fn opened(link: Link) -> Link {
    match link {
        Link::Idle => Link::Up,
        other => other,
    }
}

/// Where a session stands after it was told to close.
pub open spec fn closed(link: Link) -> Link {
    match link {
        Link::Up => Link::Down,
        other => other,
    }
}

/// Something done to a session.
pub ghost enum Turn {
    Connect,
    Disconnect,
}

/// Where a session stands after a turn.
pub open spec fn turned(link: Link, turn: Turn) -> Link {
    match turn {
        Turn::Connect => opened(link),
        Turn::Disconnect => closed(link),
    }
}

/// Where a session stands after a run of turns.
pub open spec fn life(link: Link, turns: Seq<Turn>) -> Link
    decreases turns.len(),
{
    if turns.len() == 0 {
        link
    } else {
        turned(life(link, turns.drop_last()), turns.last())
    }
}

/// A session is open for one stretch of its life at most: once it has been
/// closed, whatever is done to it, it stays closed.
pub proof fn lemma_closed_for_good(link: Link, turns: Seq<Turn>, i: int, j: int)
    requires
        0 <= i <= j <= turns.len(),
        life(link, turns.take(i)) is Down,
    ensures
        life(link, turns.take(j)) is Down,
    decreases j - i,
{
    if i < j {
        lemma_closed_for_good(link, turns, i, j - 1);
        assert(turns.take(j).drop_last() =~= turns.take(j - 1));
    }
}

/// What every session can do: be opened, be closed, and put a message on the
/// wire.
pub trait Server {
    /// Where the session stands in its life.
    spec fn link(&self) -> Link;

    /// What `send` puts on the wire for `message` on `channel`: nothing
    /// where the session writes nothing.
    spec fn outbound(&self, channel: Seq<char>, message: Seq<char>) -> Option<Seq<char>>;

    /// Marks the session open. Only a session that was never opened can be.
    fn connect(&mut self) -> (r: Result<(), SessionError>)
        ensures
            final(self).link() == opened(old(self).link()),
            r == match old(self).link() {
                Link::Idle => Ok::<(), SessionError>(()),
                Link::Up => Err::<(), SessionError>(SessionError::AlreadyConnected),
                Link::Down => Err::<(), SessionError>(SessionError::Closed),
            },
    ;

    /// Marks the session closed, if it is open.
    fn disconnect(&mut self)
        ensures
            final(self).link() == closed(old(self).link()),
    ;

    /// Whether the session is open: its reader goes on while it is.
    fn is_connected(&self) -> (up: bool)
        ensures
            up == (self.link() is Up),
    ;

    /// The bytes to write for `message` on `channel`, if any.
    fn send(&self, channel: &str, message: &str) -> (out: Option<String>)
        ensures
            out.deep_view() == self.outbound(channel@, message@),
    ;
}

/// The session that the agent talks through: the console, or IRC.
#[derive(Debug)]
pub enum Session {
    Shell(Shell),
    Irc(Irc),
}

impl Session {
    /// The same session at another stage of its life.
    pub open spec fn with_link(self, link: Link) -> Session {
        match self {
            Session::Shell(shell) => Session::Shell(shell.with_link(link)),
            Session::Irc(irc) => Session::Irc(irc.with_link(link)),
        }
    }

    /// Another stage of life changes nothing about what a session writes
    /// while it is open, and the stage a session is at changes nothing.
    pub proof fn lemma_with_link(self, link: Link)
        ensures
            self.with_link(link).link() == link,
            self.with_link(self.link()) == self,
    {
        match self {
            Session::Shell(shell) => shell.lemma_with_link(link),
            Session::Irc(irc) => irc.lemma_with_link(link),
        }
        match self {
            Session::Shell(shell) => shell.lemma_with_link(shell.state()),
            Session::Irc(irc) => irc.lemma_with_link(irc.state()),
        }
    }
}

impl Server for Session {
    open spec fn link(&self) -> Link {
        match self {
            Session::Shell(shell) => shell.link(),
            Session::Irc(irc) => irc.link(),
        }
    }

    open spec fn outbound(&self, channel: Seq<char>, message: Seq<char>) -> Option<Seq<char>> {
        match self {
            Session::Shell(shell) => shell.outbound(channel, message),
            Session::Irc(irc) => irc.outbound(channel, message),
        }
    }

    fn connect(&mut self) -> (r: Result<(), SessionError>)
        ensures
            *final(self) == old(self).with_link(opened(old(self).link())),
    {
        match self {
            Session::Shell(shell) => shell.connect(),
            Session::Irc(irc) => irc.connect(),
        }
    }

    fn disconnect(&mut self)
        ensures
            *final(self) == old(self).with_link(closed(old(self).link())),
    {
        match self {
            Session::Shell(shell) => shell.disconnect(),
            Session::Irc(irc) => irc.disconnect(),
        }
    }

    fn is_connected(&self) -> (up: bool) {
        match self {
            Session::Shell(shell) => shell.is_connected(),
            Session::Irc(irc) => irc.is_connected(),
        }
    }

    fn send(&self, channel: &str, message: &str) -> (out: Option<String>) {
        match self {
            Session::Shell(shell) => shell.send(channel, message),
            Session::Irc(irc) => irc.send(channel, message),
        }
    }
}

} // verus!
