//! What the agent is configured with: its name, the kind of session it
//! opens, and the parameters of an IRC session.

use vstd::prelude::*;

verus! {

/// The kind of session the agent opens.
#[derive(Clone, Copy, Debug, PartialEq, Eq, Structural)]
pub enum ServerType {
    /// The local console.
    Shell,
    /// A connection to an IRC server.
    Irc,
}

/// The parameters of an IRC session.
#[derive(Debug)]
pub struct IrcConfig {
    pub nick: String,
    pub user: Option<String>,
    pub pass: Option<String>,
    pub realname: Option<String>,
    pub addr: String,
    pub channels: Vec<String>,
}

/// An `IrcConfig` as plain text.
pub ghost struct IrcConfigView {
    pub nick: Seq<char>,
    pub user: Option<Seq<char>>,
    pub pass: Option<Seq<char>>,
    pub realname: Option<Seq<char>>,
    pub addr: Seq<char>,
    pub channels: Seq<Seq<char>>,
}

impl View for IrcConfig {
    type V = IrcConfigView;

    open spec fn view(&self) -> IrcConfigView {
        IrcConfigView {
            nick: self.nick@,
            user: self.user.deep_view(),
            pass: self.pass.deep_view(),
            realname: self.realname.deep_view(),
            addr: self.addr@,
            channels: self.channels.deep_view(),
        }
    }
}

impl IrcConfigView {
    /// The user name to register with: the nick where none is set.
    pub open spec fn user_name(self) -> Seq<char> {
        match self.user {
            Some(user) => user,
            None => self.nick,
        }
    }

    /// The real name to register with: the nick where none is set.
    pub open spec fn real_name(self) -> Seq<char> {
        match self.realname {
            Some(name) => name,
            None => self.nick,
        }
    }
}

/// The agent's configuration.
#[derive(Debug)]
pub struct Config {
    pub name: String,
    pub server: ServerType,
    pub scripts: Vec<String>,
    pub irc: Option<IrcConfig>,
}

} // verus!
