//! The IRC session: the line protocol it reads, the commands it writes, and
//! what it does about each line.

use vstd::prelude::*;
use vstd::string::*;
use crate::bot::{Message, MessageView};
use crate::config::{IrcConfig, IrcConfigView};
use crate::server::{closed, opened, Link, Server, SessionError};
use crate::text::{
    after, ascii_lowered, before, chars_of, find_char, lemma_without_trailing_is, position,
    reads_ignoring_case, without_trailing,
};

verus! {

/// The commands the session knows.
#[derive(Debug, Clone, Copy, PartialEq, Eq, Structural)]
pub enum IrcCommand {
    Ping,
    Pong,
    User,
    Privmsg,
    Join,
}

/// Why a line was not taken.
#[derive(Debug, Clone, Copy, PartialEq, Eq, Structural)]
pub enum IrcError {
    /// The line's keyword names no command the session knows.
    UnknownCommand,
    /// The line is empty, or is a prefix with nothing behind it.
    InvalidMessage,
}

/// One line of the protocol, taken apart.
#[derive(Debug)]
pub struct IrcMessage {
    /// The line as it was received.
    pub raw: String,
    /// From a prefix `nick!server@host`: the part between `!` and `@`.
    pub servername: Option<String>,
    /// From a prefix `nick!server@host`: the part behind `@`.
    pub hostname: Option<String>,
    /// From a prefix `nick!server@host`: the part before `!`.
    pub nick: Option<String>,
    pub command: IrcCommand,
    /// All that follows the keyword, as it stands.
    pub params: String,
}

/// An `IrcMessage` as plain text.
pub ghost struct IrcMessageView {
    pub raw: Seq<char>,
    pub servername: Option<Seq<char>>,
    pub hostname: Option<Seq<char>>,
    pub nick: Option<Seq<char>>,
    pub command: IrcCommand,
    pub params: Seq<char>,
}

impl View for IrcMessage {
    type V = IrcMessageView;

    open spec fn view(&self) -> IrcMessageView {
        IrcMessageView {
            raw: self.raw@,
            servername: self.servername.deep_view(),
            hostname: self.hostname.deep_view(),
            nick: self.nick.deep_view(),
            command: self.command,
            params: self.params@,
        }
    }
}

/// Whether `s` holds a `c`.
pub open spec fn has(s: Seq<char>, c: char) -> bool {
    position(s, c) < s.len()
}

/// The nick of a prefix: what stands before its first `!`, if it has one.
pub open spec fn prefix_nick(prefix: Seq<char>) -> Option<Seq<char>> {
    if has(prefix, '!') {
        Some(before(prefix, '!'))
    } else {
        None
    }
}

/// The server name of a prefix: what stands between its first `!` and the
/// first `@` behind that, if it has both.
pub open spec fn prefix_servername(prefix: Seq<char>) -> Option<Seq<char>> {
    if has(prefix, '!') && has(after(prefix, '!'), '@') {
        Some(before(after(prefix, '!'), '@'))
    } else {
        None
    }
}

/// The host name of a prefix: what stands behind the first `@` behind its
/// first `!`, if it has both.
pub open spec fn prefix_hostname(prefix: Seq<char>) -> Option<Seq<char>> {
    if has(prefix, '!') && has(after(prefix, '!'), '@') {
        Some(after(after(prefix, '!'), '@'))
    } else {
        None
    }
}

/// The command that a keyword names: the keyword is read without the `;`s it
/// ends with, and in any letter case.
pub open spec fn command_named(keyword: Seq<char>) -> Option<IrcCommand> {
    let word = ascii_lowered(without_trailing(keyword, ';'));
    if word == "ping"@ {
        Some(IrcCommand::Ping)
    } else if word == "pong"@ {
        Some(IrcCommand::Pong)
    } else if word == "user"@ {
        Some(IrcCommand::User)
    } else if word == "privmsg"@ {
        Some(IrcCommand::Privmsg)
    } else if word == "join"@ {
        Some(IrcCommand::Join)
    } else {
        None
    }
}

/// What a line without its prefix says: its first token is the keyword, the
/// rest the parameters.
pub open spec fn parse_command(raw: Seq<char>, prefix: Option<Seq<char>>, line: Seq<char>) -> Result<
    IrcMessageView,
    IrcError,
> {
    match command_named(before(line, ' ')) {
        None => Err(IrcError::UnknownCommand),
        Some(command) => Ok(
            IrcMessageView {
                raw,
                servername: match prefix {
                    Some(p) => prefix_servername(p),
                    None => None,
                },
                hostname: match prefix {
                    Some(p) => prefix_hostname(p),
                    None => None,
                },
                nick: match prefix {
                    Some(p) => prefix_nick(p),
                    None => None,
                },
                command,
                params: after(line, ' '),
            },
        ),
    }
}

/// What a line says. A line that starts with `:` has a prefix, its first
/// token, and the command behind it.
pub open spec fn parse_line(raw: Seq<char>) -> Result<IrcMessageView, IrcError> {
    if raw.len() == 0 {
        Err(IrcError::InvalidMessage)
    } else if raw[0] == ':' {
        let body = raw.skip(1);
        if has(body, ' ') {
            parse_command(raw, Some(before(body, ' ')), after(body, ' '))
        } else {
            Err(IrcError::InvalidMessage)
        }
    } else {
        parse_command(raw, None, raw)
    }
}

/// The result of parsing as plain text.
pub open spec fn parsed_view(r: Result<IrcMessage, IrcError>) -> Result<IrcMessageView, IrcError> {
    match r {
        Ok(m) => Ok(m@),
        Err(e) => Err(e),
    }
}

impl IrcError {
    /// The error in words.
    pub fn message(&self) -> (text: &'static str)
        ensures
            text@ == match *self {
                IrcError::UnknownCommand => "unknown command"@,
                IrcError::InvalidMessage => "invalid message"@,
            },
    {
        match self {
            IrcError::UnknownCommand => "unknown command",
            IrcError::InvalidMessage => "invalid message",
        }
    }
}

/// The command that `chars[from..to]` names.
fn command_at(chars: &Vec<char>, from: usize, to: usize) -> (r: Option<IrcCommand>)
    requires
        from <= to <= chars.len(),
    ensures
        r == command_named(chars@.subrange(from as int, to as int)),
{
    let ghost keyword = chars@.subrange(from as int, to as int);
    let mut end: usize = to;
    while end > from && chars[end - 1] == ';'
        invariant
            from <= end <= to <= chars.len(),
            forall|j: int| end <= j < to ==> chars@[j] == ';',
        decreases end,
    {
        end -= 1;
    }
    proof {
        lemma_without_trailing_is(keyword, ';', end - from);
        assert(keyword.take(end - from) =~= chars@.subrange(from as int, end as int));
    }
    if reads_ignoring_case(chars, from, end, "ping") {
        Some(IrcCommand::Ping)
    } else if reads_ignoring_case(chars, from, end, "pong") {
        Some(IrcCommand::Pong)
    } else if reads_ignoring_case(chars, from, end, "user") {
        Some(IrcCommand::User)
    } else if reads_ignoring_case(chars, from, end, "privmsg") {
        Some(IrcCommand::Privmsg)
    } else if reads_ignoring_case(chars, from, end, "join") {
        Some(IrcCommand::Join)
    } else {
        None
    }
}

impl IrcMessage {
    /// Takes one line apart. The line comes without its line terminator.
    pub fn from(raw: &str) -> (r: Result<IrcMessage, IrcError>)
        ensures
            parsed_view(r) == parse_line(raw@),
    {
        let chars = chars_of(raw);
        let n: usize = chars.len();
        if n == 0 {
            return Err(IrcError::InvalidMessage);
        }
        let mut nick: Option<String> = None;
        let mut servername: Option<String> = None;
        let mut hostname: Option<String> = None;
        let mut start: usize = 0;
        let ghost mut prefix: Option<Seq<char>> = None;
        if chars[0] == ':' {
            let ghost body = raw@.skip(1);
            let space = find_char(&chars, 1, n, ' ');
            assert(chars@.subrange(1, n as int) =~= body);
            if space == n {
                return Err(IrcError::InvalidMessage);
            }
            let ghost p = before(body, ' ');
            assert(p =~= chars@.subrange(1, space as int));
            assert(after(body, ' ') =~= chars@.subrange(space + 1, n as int));
            let bang = find_char(&chars, 1, space, '!');
            if bang < space {
                let ghost rest = after(p, '!');
                assert(rest =~= chars@.subrange(bang + 1, space as int));
                assert(before(p, '!') =~= chars@.subrange(1, bang as int));
                nick = Some(raw.substring_char(1, bang).to_owned());
                let at = find_char(&chars, bang + 1, space, '@');
                if at < space {
                    assert(before(rest, '@') =~= chars@.subrange(bang + 1, at as int));
                    assert(after(rest, '@') =~= chars@.subrange(at + 1, space as int));
                    servername = Some(raw.substring_char(bang + 1, at).to_owned());
                    hostname = Some(raw.substring_char(at + 1, space).to_owned());
                }
            }
            start = space + 1;
            proof {
                prefix = Some(p);
            }
        }
        let ghost line = chars@.subrange(start as int, n as int);
        assert(start == 0 ==> line =~= raw@);
        let end = find_char(&chars, start, n, ' ');
        assert(before(line, ' ') =~= chars@.subrange(start as int, end as int));
        let command = match command_at(&chars, start, end) {
            Some(command) => command,
            None => {
                return Err(IrcError::UnknownCommand);
            },
        };
        let params = if end < n {
            assert(after(line, ' ') =~= chars@.subrange(end + 1, n as int));
            raw.substring_char(end + 1, n).to_owned()
        } else {
            String::new()
        };
        Ok(IrcMessage { raw: raw.to_owned(), servername, hostname, nick, command, params })
    }
}

/// The line terminator of the protocol.
pub const CRLF: &'static str = "\r\n";

/// How long the session lets the server settle after `PASS`, `NICK` and
/// `USER`, in milliseconds.
pub const REGISTER_PAUSE: u64 = 3000;

/// How long the session lets the server settle after each `JOIN`, in
/// milliseconds.
pub const JOIN_PAUSE: u64 = 1000;

/// The nick given to the sender of a line without a prefix nick.
pub const UNKNOWN_NICK: &'static str = "unknown";

/// The command that gives the connection password.
pub open spec fn pass_line(pass: Seq<char>) -> Seq<char> {
    "PASS "@ + pass + CRLF@
}

/// The command that sets the nick.
pub open spec fn nick_line(nick: Seq<char>) -> Seq<char> {
    "NICK "@ + nick + CRLF@
}

/// The command that registers the user; host and server are left open.
pub open spec fn user_line(user: Seq<char>, realname: Seq<char>) -> Seq<char> {
    "USER "@ + user + " * * :"@ + realname + CRLF@
}

/// The command that joins a channel.
pub open spec fn join_line(channel: Seq<char>) -> Seq<char> {
    "JOIN "@ + channel + CRLF@
}

/// The answer to a `PING` with the given parameters.
pub open spec fn pong_line(params: Seq<char>) -> Seq<char> {
    "PONG "@ + params + CRLF@
}

/// The command that says `text` on `channel`.
pub open spec fn privmsg_line(channel: Seq<char>, text: Seq<char>) -> Seq<char> {
    "PRIVMSG "@ + channel + " "@ + text + CRLF@
}

/// One step of the handshake: a line to write, and how long to let the
/// server settle behind it, in milliseconds.
#[derive(Debug)]
pub struct HandshakeStep {
    pub line: String,
    pub pause: u64,
}

impl DeepView for HandshakeStep {
    type V = (Seq<char>, u64);

    open spec fn deep_view(&self) -> (Seq<char>, u64) {
        (self.line@, self.pause)
    }
}

/// The steps that join the first `count` channels, in order.
pub open spec fn join_steps(channels: Seq<Seq<char>>, count: nat) -> Seq<(Seq<char>, u64)>
    recommends
        count <= channels.len(),
{
    Seq::new(count, |i: int| (join_line(channels[i]), JOIN_PAUSE))
}

/// The handshake of a session: `PASS` where a password is set, `NICK`,
/// `USER`, then one `JOIN` for each channel, in the order configured.
pub open spec fn handshake_steps(config: IrcConfigView) -> Seq<(Seq<char>, u64)> {
    (match config.pass {
        Some(pass) => seq![(pass_line(pass), REGISTER_PAUSE)],
        None => seq![],
    }) + seq![
        (nick_line(config.nick), REGISTER_PAUSE),
        (user_line(config.user_name(), config.real_name()), REGISTER_PAUSE),
    ] + join_steps(config.channels, config.channels.len())
}

/// The chat message that a `PRIVMSG` carries: its first parameter is the
/// channel, the rest the text. One with a single parameter carries none.
pub open spec fn privmsg_of(msg: IrcMessageView) -> Option<MessageView> {
    if has(msg.params, ' ') {
        Some(
            MessageView {
                channel: before(msg.params, ' '),
                nick: match msg.nick {
                    Some(nick) => nick,
                    None => UNKNOWN_NICK@,
                },
                message: after(msg.params, ' '),
            },
        )
    } else {
        None
    }
}

/// What the session does about a line it has read.
#[derive(Debug)]
pub enum Reaction {
    /// Write this line back at once.
    Reply(String),
    /// Hand this message to the dispatcher.
    Deliver(Message),
    /// Nothing: the line is not for the agent, or cannot be read.
    Ignore,
}

/// A `Reaction` as plain text.
pub ghost enum ReactionView {
    Reply(Seq<char>),
    Deliver(MessageView),
    Ignore,
}

impl View for Reaction {
    type V = ReactionView;

    open spec fn view(&self) -> ReactionView {
        match self {
            Reaction::Reply(line) => ReactionView::Reply(line@),
            Reaction::Deliver(msg) => ReactionView::Deliver(msg@),
            Reaction::Ignore => ReactionView::Ignore,
        }
    }
}

impl DeepView for Reaction {
    type V = ReactionView;

    open spec fn deep_view(&self) -> ReactionView {
        self@
    }
}

/// What the session does about a parsed line: it answers a `PING`, delivers
/// a `PRIVMSG` that carries a message, and lets everything else pass.
pub open spec fn reaction_to_message(msg: IrcMessageView) -> ReactionView {
    match msg.command {
        IrcCommand::Ping => ReactionView::Reply(pong_line(msg.params)),
        IrcCommand::Privmsg => match privmsg_of(msg) {
            Some(m) => ReactionView::Deliver(m),
            None => ReactionView::Ignore,
        },
        _ => ReactionView::Ignore,
    }
}

/// What the session does about a line: a line that cannot be parsed is
/// dropped.
pub open spec fn reaction_to(line: Seq<char>) -> ReactionView {
    match parse_line(line) {
        Ok(msg) => reaction_to_message(msg),
        Err(_) => ReactionView::Ignore,
    }
}

/// A line made of a keyword, one piece of text and the line terminator.
fn command_line(keyword: &str, text: &str) -> (line: String)
    ensures
        line@ == keyword@ + text@ + CRLF@,
{
    let mut line = String::new();
    line.append(keyword);
    line.append(text);
    line.append(CRLF);
    line
}

/// The answer to a `PING`: its parameters sent back in a `PONG`.
pub fn handle_ping(msg: &IrcMessage) -> (line: String)
    ensures
        line@ == pong_line(msg@.params),
{
    command_line("PONG ", msg.params.as_str())
}

/// The chat message that a `PRIVMSG` carries, if it carries one.
pub fn handle_privmsg(msg: IrcMessage) -> (r: Option<Message>)
    ensures
        r.deep_view() == privmsg_of(msg@),
{
    let chars = chars_of(msg.params.as_str());
    let n: usize = chars.len();
    let space = find_char(&chars, 0, n, ' ');
    assert(chars@.subrange(0, n as int) =~= msg.params@);
    if space == n {
        return None;
    }
    assert(before(msg.params@, ' ') =~= msg.params@.subrange(0, space as int));
    assert(after(msg.params@, ' ') =~= msg.params@.subrange(space + 1, n as int));
    let channel = msg.params.as_str().substring_char(0, space).to_owned();
    let message = msg.params.as_str().substring_char(space + 1, n).to_owned();
    let nick = match msg.nick {
        Some(nick) => nick,
        None => UNKNOWN_NICK.to_owned(),
    };
    Some(Message { channel, nick, message })
}

/// What the session does about one line it has read.
pub fn react(line: &str) -> (r: Reaction)
    ensures
        r@ == reaction_to(line@),
{
    match IrcMessage::from(line) {
        Ok(msg) => match msg.command {
            IrcCommand::Ping => Reaction::Reply(handle_ping(&msg)),
            IrcCommand::Privmsg => match handle_privmsg(msg) {
                Some(m) => Reaction::Deliver(m),
                None => Reaction::Ignore,
            },
            _ => Reaction::Ignore,
        },
        Err(_) => Reaction::Ignore,
    }
}

/// Whether a line terminator begins at index `i` of `s`: a carriage return
/// with a line feed behind it.
pub open spec fn terminator_at(s: Seq<char>, i: int) -> bool {
    0 <= i && i + 1 < s.len() && s[i] == '\r' && s[i + 1] == '\n'
}

/// Where the first line terminator of `s` begins, or `s.len()` where `s`
/// holds none.
pub open spec fn terminator(s: Seq<char>) -> int
    decreases s.len(),
{
    if s.len() < 2 {
        s.len() as int
    } else if terminator_at(s, 0) {
        0
    } else {
        1 + terminator(s.drop_first())
    }
}

/// The first terminator begins in `s` and ends in it, or `s` holds none.
pub proof fn lemma_terminator(s: Seq<char>)
    ensures
        0 <= terminator(s) <= s.len(),
        terminator(s) < s.len() ==> terminator(s) + 2 <= s.len(),
    decreases s.len(),
{
    if s.len() >= 2 && !terminator_at(s, 0) {
        lemma_terminator(s.drop_first());
    }
}

/// The lines of `s` that are complete, each without its terminator.
pub open spec fn complete_lines(s: Seq<char>) -> Seq<Seq<char>>
    decreases s.len(),
{
    if terminator(s) < s.len() {
        proof {
            lemma_terminator(s);
        }
        seq![s.take(terminator(s))] + complete_lines(s.skip(terminator(s) + 2))
    } else {
        seq![]
    }
}

/// What stands behind the last complete line of `s`: the beginning of a line
/// that has not ended yet.
pub open spec fn unfinished(s: Seq<char>) -> Seq<char>
    decreases s.len(),
{
    if terminator(s) < s.len() {
        proof {
            lemma_terminator(s);
        }
        unfinished(s.skip(terminator(s) + 2))
    } else {
        s
    }
}

/// An index with no terminator beginning before it, at which one begins or
/// behind which no room for one is left, is where the first terminator
/// begins.
proof fn lemma_terminator_is(s: Seq<char>, k: int)
    requires
        0 <= k <= s.len(),
        forall|i: int| 0 <= i < k ==> !terminator_at(s, i),
        k < s.len() ==> terminator_at(s, k),
    ensures
        terminator(s) == k,
    decreases s.len(),
{
    if s.len() < 2 {
        assert(k < s.len() ==> terminator_at(s, k));
    } else if terminator_at(s, 0) {
    } else {
        let rest = s.drop_first();
        assert forall|i: int| 0 <= i < k - 1 implies !terminator_at(rest, i) by {
            assert(!terminator_at(s, i + 1));
            if i + 1 < rest.len() {
                assert(rest[i] == s[i + 1] && rest[i + 1] == s[i + 2]);
            }
        }
        if k < s.len() {
            assert(terminator_at(s, k));
            assert(rest[k - 1] == s[k] && rest[k] == s[k + 1]);
        }
        lemma_terminator_is(rest, k - 1);
    }
}

/// What was read from the connection and has not made a complete line yet.
#[derive(Debug)]
pub struct LineBuffer {
    pending: String,
}

impl View for LineBuffer {
    type V = Seq<char>;

    closed spec fn view(&self) -> Seq<char> {
        self.pending@
    }
}

impl LineBuffer {
    /// A buffer that holds nothing.
    pub fn new() -> (buffer: LineBuffer)
        ensures
            buffer@ == Seq::<char>::empty(),
    {
        LineBuffer { pending: String::new() }
    }

    /// Takes what was read next, and hands out the lines that are complete
    /// with it, in order and without their terminators. What is left is kept
    /// for the next time.
    pub fn feed(&mut self, chunk: &str) -> (lines: Vec<String>)
        ensures
            lines.deep_view() == complete_lines(old(self)@ + chunk@),
            final(self)@ == unfinished(old(self)@ + chunk@),
    {
        self.pending.append(chunk);
        let ghost all = self.pending@;
        let chars = chars_of(self.pending.as_str());
        let n: usize = chars.len();
        let mut lines: Vec<String> = Vec::new();
        let mut from: usize = 0;
        assert(all.skip(0) =~= all);
        assert(lines.deep_view() =~= Seq::<Seq<char>>::empty());
        loop
            invariant
                from <= n == chars.len(),
                chars@ == all,
                self.pending@ == all,
                complete_lines(all) == lines.deep_view() + complete_lines(all.skip(from as int)),
                unfinished(all) == unfinished(all.skip(from as int)),
            ensures
                from <= n == chars.len(),
                self.pending@ == all,
                complete_lines(all) == lines.deep_view(),
                unfinished(all) == all.skip(from as int),
            decreases n - from,
        {
            let ghost tail = all.skip(from as int);
            let mut at: usize = from;
            while at < n && !(at + 1 < n && chars[at] == '\r' && chars[at + 1] == '\n')
                invariant
                    from <= at <= n == chars.len(),
                    chars@ == all,
                    forall|i: int| from <= i < at ==> !terminator_at(all, i),
                decreases n - at,
            {
                at += 1;
            }
            proof {
                assert forall|i: int| 0 <= i < at - from implies !terminator_at(tail, i) by {
                    assert(!terminator_at(all, from + i));
                    if i + 1 < tail.len() {
                        assert(tail[i] == all[from + i] && tail[i + 1] == all[from + i + 1]);
                    }
                }
                if at < n {
                    assert(tail[at - from] == all[at as int] && tail[at - from + 1] == all[at + 1]);
                    assert(terminator_at(tail, at - from));
                }
                lemma_terminator_is(tail, at - from);
            }
            if at == n {
                assert(lines.deep_view() + Seq::<Seq<char>>::empty() =~= lines.deep_view());
                break ;
            }
            let ghost so_far = lines.deep_view();
            assert(tail.take(at - from) =~= all.subrange(from as int, at as int));
            assert(tail.skip(at - from + 2) =~= all.skip(at + 2));
            lines.push(self.pending.as_str().substring_char(from, at).to_owned());
            assert(lines.deep_view() =~= so_far.push(tail.take(at - from)));
            assert(so_far + (seq![tail.take(at - from)] + complete_lines(all.skip(at + 2)))
                =~= so_far.push(tail.take(at - from)) + complete_lines(all.skip(at + 2)));
            from = at + 2;
        }
        let rest = self.pending.as_str().substring_char(from, n).to_owned();
        assert(all.subrange(from as int, n as int) =~= all.skip(from as int));
        self.pending = rest;
        lines
    }
}

/// What the session does about what it has read next: its reaction to each
/// line that is complete with it, in order.
pub fn receive(buffer: &mut LineBuffer, chunk: &str) -> (reactions: Vec<Reaction>)
    ensures
        final(buffer)@ == unfinished(old(buffer)@ + chunk@),
        reactions.deep_view() == complete_lines(old(buffer)@ + chunk@).map_values(
            |line: Seq<char>| reaction_to(line),
        ),
{
    let lines = buffer.feed(chunk);
    let mut reactions: Vec<Reaction> = Vec::new();
    let mut i: usize = 0;
    while i < lines.len()
        invariant
            i <= lines.len(),
            reactions.len() == i,
            forall|k: int| 0 <= k < i ==> reactions[k]@ == reaction_to(lines[k]@),
        decreases lines.len() - i,
    {
        reactions.push(react(lines[i].as_str()));
        i += 1;
    }
    assert(reactions.deep_view() =~= lines.deep_view().map_values(
        |line: Seq<char>| reaction_to(line),
    ));
    reactions
}

/// An IRC session: its parameters, and where it stands in its life.
#[derive(Debug)]
pub struct Irc {
    config: IrcConfig,
    link: Link,
}

impl Irc {
    /// A session that has not been opened yet.
    pub fn new(config: IrcConfig) -> (irc: Irc)
        ensures
            irc.config() == config,
            irc.link() is Idle,
    {
        Irc { config, link: Link::Idle }
    }

    /// The parameters of the session.
    pub closed spec fn config(&self) -> IrcConfig {
        self.config
    }

    /// The address to connect to.
    pub fn address(&self) -> (addr: &str)
        ensures
            addr@ == self.config()@.addr,
    {
        self.config.addr.as_str()
    }

    /// The handshake: the lines to write once the connection stands, in
    /// order, each with the pause behind it.
    pub fn handshake(&self) -> (steps: Vec<HandshakeStep>)
        ensures
            steps.deep_view() == handshake_steps(self.config()@),
    {
        let mut steps: Vec<HandshakeStep> = Vec::new();
        let nick = self.config.nick.as_str();
        if let Some(pass) = &self.config.pass {
            steps.push(
                HandshakeStep { line: command_line("PASS ", pass.as_str()), pause: REGISTER_PAUSE },
            );
        }
        steps.push(HandshakeStep { line: command_line("NICK ", nick), pause: REGISTER_PAUSE });
        let user = match &self.config.user {
            Some(user) => user.as_str(),
            None => nick,
        };
        let realname = match &self.config.realname {
            Some(name) => name.as_str(),
            None => nick,
        };
        let mut line = String::new();
        line.append("USER ");
        line.append(user);
        line.append(" * * :");
        line.append(realname);
        line.append(CRLF);
        steps.push(HandshakeStep { line, pause: REGISTER_PAUSE });
        let ghost head = steps.deep_view();
        let ghost channels = self.config()@.channels;
        let mut i: usize = 0;
        while i < self.config.channels.len()
            invariant
                i <= self.config.channels.len(),
                channels == self.config()@.channels,
                channels.len() == self.config.channels.len(),
                steps.deep_view() == head + join_steps(channels, i as nat),
            decreases self.config.channels.len() - i,
        {
            let ghost before_push = steps.deep_view();
            steps.push(
                HandshakeStep {
                    line: command_line("JOIN ", self.config.channels[i].as_str()),
                    pause: JOIN_PAUSE,
                },
            );
            assert(steps.deep_view() =~= before_push.push(
                (join_line(channels[i as int]), JOIN_PAUSE),
            ));
            assert(join_steps(channels, (i + 1) as nat) =~= join_steps(channels, i as nat).push(
                (join_line(channels[i as int]), JOIN_PAUSE),
            ));
            i += 1;
        }
        steps
    }
}

impl Server for Irc {
    open spec fn link(&self) -> Link {
        self.state()
    }

    open spec fn outbound(&self, channel: Seq<char>, message: Seq<char>) -> Option<Seq<char>> {
        if self.link() is Up {
            Some(privmsg_line(channel, message))
        } else {
            None
        }
    }

    fn connect(&mut self) -> (r: Result<(), SessionError>)
        ensures
            *final(self) == old(self).with_link(opened(old(self).link())),
    {
        match self.link {
            Link::Idle => {
                self.link = Link::Up;
                Ok(())
            },
            Link::Up => Err(SessionError::AlreadyConnected),
            Link::Down => Err(SessionError::Closed),
        }
    }

    fn disconnect(&mut self)
        ensures
            *final(self) == old(self).with_link(closed(old(self).link())),
    {
        match self.link {
            Link::Up => {
                self.link = Link::Down;
            },
            _ => {},
        }
    }

    fn is_connected(&self) -> (up: bool) {
        match self.link {
            Link::Up => true,
            _ => false,
        }
    }

    fn send(&self, channel: &str, message: &str) -> (out: Option<String>) {
        match self.link {
            Link::Up => {
                let mut line = String::new();
                line.append("PRIVMSG ");
                line.append(channel);
                line.append(" ");
                line.append(message);
                line.append(CRLF);
                Some(line)
            },
            _ => None,
        }
    }
}

impl Irc {
    /// Where the session stands in its life.
    pub closed spec fn state(&self) -> Link {
        self.link
    }

    /// The same session at another stage of its life.
    pub closed spec fn with_link(self, link: Link) -> Irc {
        Irc { config: self.config, link }
    }

    /// Another stage of life changes nothing else about a session.
    pub proof fn lemma_with_link(self, link: Link)
        ensures
            self.with_link(link).state() == link,
            self.with_link(link).config() == self.config(),
            self.with_link(self.state()) == self,
    {
    }
}

} // verus!
