//! The built-in handlers: what they say, and to whom.

use vstd::prelude::*;
use vstd::string::*;
use crate::bot::Bot;
use crate::server::Server;

verus! {

/// The handler that answers a ping.
pub const PING: usize = 0;

/// The handler that answers a ping after a while.
pub const PING_DELAYED: usize = 1;

/// The handler that reports the address the agent is seen under.
pub const IFCONFIG: usize = 2;

/// How long the delayed answer to a ping waits, in milliseconds.
pub const PING_DELAY: u64 = 1000;

/// What the answer to a ping says.
pub const PONG: &'static str = "pong";

/// Something to say later.
#[derive(Debug)]
pub struct Delayed {
    /// How long to wait, in milliseconds.
    pub millis: u64,
    pub channel: String,
    pub message: String,
}

/// The built-in handlers.
pub struct Action {}

impl Action {
    /// Answers a ping: `pong`, said to whoever sent it, on the channel it
    /// came from.
    pub fn ping(bot: &Bot, ch: String, nick: String, _msg: String, _caps: Vec<Option<String>>) -> (out:
        Option<String>)
        ensures
            out.deep_view() == bot@.server.outbound(ch@, nick@ + ": "@ + PONG@),
    {
        bot.reply(ch.as_str(), nick.as_str(), PONG)
    }

    /// Answers a ping after a while: `pong`, said on the channel the ping
    /// came from.
    pub fn ping_delayed(
        _bot: &Bot,
        ch: String,
        _nick: String,
        _msg: String,
        _caps: Vec<Option<String>>,
    ) -> (later: Delayed)
        ensures
            later.millis == PING_DELAY,
            later.channel@ == ch@,
            later.message@ == PONG@,
    {
        Delayed { millis: PING_DELAY, channel: ch, message: PONG.to_owned() }
    }
}

} // verus!
