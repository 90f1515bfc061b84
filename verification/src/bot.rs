//! The dispatcher: what the agent does with each message it receives.
//!
//! The agent keeps two tables of patterns, each with a handler. A message is
//! first held against the reserved phrases (the shutdown words, an assignment
//! `key is value`, a query `key?`), then against every pattern of both
//! tables. What follows from a message is handed out as a list of effects,
//! for the caller to carry out in order.

use vstd::prelude::*;
use vstd::string::*;
use crate::config::{Config, ServerType};
use crate::pattern::{regex_captures, regex_compiles, regex_matches, InvalidPattern, Pattern};
use crate::server::irc::Irc;
use crate::server::shell::{name_column, Shell};
use crate::action::{IFCONFIG, PING};
use crate::server::{closed, opened, Link, Server, Session, SessionError};
use crate::store::{loaded, StateStore};
use crate::text::{chars_of, lowercase_of, reads, to_lowercase, trim_bounds, trimmed};

verus! {

/// One line of chat: where it was said, by whom, and what.
#[derive(Debug)]
pub struct Message {
    pub channel: String,
    pub nick: String,
    pub message: String,
}

/// A `Message` as plain text.
pub ghost struct MessageView {
    pub channel: Seq<char>,
    pub nick: Seq<char>,
    pub message: Seq<char>,
}

impl View for Message {
    type V = MessageView;

    open spec fn view(&self) -> MessageView {
        MessageView { channel: self.channel@, nick: self.nick@, message: self.message@ }
    }
}

impl DeepView for Message {
    type V = MessageView;

    open spec fn deep_view(&self) -> MessageView {
        self@
    }
}

impl Message {
    /// The text of the message without the white space around it.
    pub fn trim(&self) -> (text: &str)
        ensures
            text@ == trimmed(self.message@),
    {
        let chars = chars_of(self.message.as_str());
        let (from, to) = trim_bounds(&chars);
        self.message.as_str().substring_char(from, to)
    }
}

/// The table a pattern stands in.
#[derive(Debug, Clone, Copy, PartialEq, Eq, Structural)]
pub enum Trigger {
    /// The pattern is held against the text as it is.
    Hear,
    /// The pattern is held against text that addresses the agent by name.
    Respond,
}

/// What the farewell says.
pub const FAREWELL: &'static str = "bye";

/// The reserved pattern of an assignment, behind the agent's name.
pub const ASSIGNMENT: &'static str = "(.+) is (.+)$";

/// The reserved pattern of a query, behind the agent's name.
pub const QUERY: &'static str = "(.+)\\?$";

/// `pattern` bound to text that addresses the agent by name: at the start
/// of the text the name, a colon or none, then blanks, as few as will do.
pub open spec fn anchored(name: Seq<char>, pattern: Seq<char>) -> Seq<char> {
    "^"@ + name + ":? +?"@ + pattern
}

/// The regular expression that a pattern of a table is matched by.
pub open spec fn trigger_pattern(trigger: Trigger, name: Seq<char>, pattern: Seq<char>) -> Seq<
    char,
> {
    match trigger {
        Trigger::Hear => pattern,
        Trigger::Respond => anchored(name, pattern),
    }
}

/// Whether `s` is `word` said to the agent: its name, a colon or none, one
/// blank, and the word.
pub open spec fn says(name: Seq<char>, s: Seq<char>, word: Seq<char>) -> bool {
    s == name + " "@ + word || s == name + ": "@ + word
}

/// Whether `s` tells the agent to shut down.
pub open spec fn is_shutdown_phrase(name: Seq<char>, s: Seq<char>) -> bool {
    says(name, s, "shutdown"@) || says(name, s, "exit"@) || says(name, s, "quit"@)
}

/// One entry of a table: a pattern as it was registered, and its handler.
pub ghost struct EntryView {
    pub pattern: Seq<char>,
    pub handler: usize,
}

/// Whether `pattern` stands in `table`.
pub open spec fn has_pattern(table: Seq<EntryView>, pattern: Seq<char>) -> bool {
    exists|i: int| 0 <= i < table.len() && #[trigger] table[i].pattern == pattern
}

/// No pattern stands twice in `table`.
pub open spec fn distinct_patterns(table: Seq<EntryView>) -> bool {
    forall|i: int, j: int|
        0 <= i < j < table.len() ==> #[trigger] table[i].pattern != #[trigger] table[j].pattern
}

/// `table` after `pattern` was registered with `handler`: as before where
/// the pattern stands in it already, else with the new entry at its end.
pub open spec fn registered(table: Seq<EntryView>, pattern: Seq<char>, handler: usize) -> Seq<
    EntryView,
> {
    if has_pattern(table, pattern) {
        table
    } else {
        table.push(EntryView { pattern, handler })
    }
}

/// Something for the caller to do.
#[derive(Debug)]
pub enum Effect {
    /// Write these bytes to the session's transport.
    Write(String),
    /// Call a handler: the table and the pattern that fired, the handler, the
    /// message with its text trimmed, and the groups of the match, the whole
    /// match first.
    Invoke {
        trigger: Trigger,
        pattern: String,
        handler: usize,
        channel: String,
        nick: String,
        text: String,
        captures: Vec<Option<String>>,
    },
    /// Close the session's transport.
    Disconnect,
    /// Write a snapshot of the state store to where it is kept.
    Persist,
}

/// An `Effect` as plain text.
pub ghost enum EffectView {
    Write(Seq<char>),
    Invoke {
        trigger: Trigger,
        pattern: Seq<char>,
        handler: usize,
        channel: Seq<char>,
        nick: Seq<char>,
        text: Seq<char>,
        captures: Seq<Option<Seq<char>>>,
    },
    Disconnect,
    Persist,
}

impl DeepView for Effect {
    type V = EffectView;

    open spec fn deep_view(&self) -> EffectView {
        match self {
            Effect::Write(bytes) => EffectView::Write(bytes@),
            Effect::Invoke { trigger, pattern, handler, channel, nick, text, captures } => {
                EffectView::Invoke {
                    trigger: *trigger,
                    pattern: pattern@,
                    handler: *handler,
                    channel: channel@,
                    nick: nick@,
                    text: text@,
                    captures: captures.deep_view(),
                }
            },
            Effect::Disconnect => EffectView::Disconnect,
            Effect::Persist => EffectView::Persist,
        }
    }
}

/// What follows from one message, or from a batch of them.
#[derive(Debug)]
pub struct Step {
    /// What to do, in order.
    pub effects: Vec<Effect>,
    /// Whether the agent is to stop.
    pub stop: bool,
}

/// The agent as the contracts see it.
pub ghost struct BotView {
    pub name: Seq<char>,
    /// The patterns held against the text as it is, in the order registered.
    pub hear: Seq<EntryView>,
    /// The patterns held against text that addresses the agent.
    pub respond: Seq<EntryView>,
    /// What the agent has been told.
    pub facts: Map<Seq<char>, Seq<char>>,
    pub server: Session,
}

/// The write that puts `out` on the wire, if there is anything to put.
pub open spec fn writes(out: Option<Seq<char>>) -> Seq<EffectView> {
    match out {
        Some(bytes) => seq![EffectView::Write(bytes)],
        None => seq![],
    }
}

/// What shutting down takes: a farewell on the channel of the message that
/// asked for it, if one did; then the session is closed and the state store
/// persisted.
pub open spec fn shutdown_effects(server: Session, msg: Option<MessageView>) -> Seq<EffectView> {
    (match msg {
        Some(m) => writes(server.outbound(m.channel, FAREWELL@)),
        None => seq![],
    }) + seq![EffectView::Disconnect, EffectView::Persist]
}

/// What the agent has been told once it has read `text`: an assignment adds
/// its value under its key.
pub open spec fn learned(facts: Map<Seq<char>, Seq<char>>, name: Seq<char>, text: Seq<char>) -> Map<
    Seq<char>,
    Seq<char>,
> {
    match regex_captures(anchored(name, ASSIGNMENT@), text) {
        Some(groups) => if groups.len() > 2 && groups[1] is Some && groups[2] is Some {
            facts.insert(groups[1]->0, groups[2]->0)
        } else {
            facts
        },
        None => facts,
    }
}

/// What the agent answers to `text`: to a query, the value of its key, if the
/// key has one.
pub open spec fn answer(facts: Map<Seq<char>, Seq<char>>, name: Seq<char>, text: Seq<char>) -> Option<
    Seq<char>,
> {
    match regex_captures(anchored(name, QUERY@), text) {
        Some(groups) => if groups.len() > 1 && groups[1] is Some && facts.contains_key(
            groups[1]->0,
        ) {
            Some(facts[groups[1]->0])
        } else {
            None
        },
        None => None,
    }
}

/// The call that an entry gives rise to, if its pattern matches `text`.
pub open spec fn firing(
    trigger: Trigger,
    name: Seq<char>,
    entry: EntryView,
    msg: MessageView,
    text: Seq<char>,
) -> Option<EffectView> {
    match regex_captures(trigger_pattern(trigger, name, entry.pattern), text) {
        Some(captures) => Some(
            EffectView::Invoke {
                trigger,
                pattern: entry.pattern,
                handler: entry.handler,
                channel: msg.channel,
                nick: msg.nick,
                text,
                captures,
            },
        ),
        None => None,
    }
}

/// The calls that a table gives rise to: one for each entry whose pattern
/// matches `text`, in the order of the table.
pub open spec fn firings(
    trigger: Trigger,
    name: Seq<char>,
    table: Seq<EntryView>,
    msg: MessageView,
    text: Seq<char>,
) -> Seq<EffectView>
    decreases table.len(),
{
    if table.len() == 0 {
        seq![]
    } else {
        firings(trigger, name, table.drop_last(), msg, text) + (match firing(
            trigger,
            name,
            table.last(),
            msg,
            text,
        ) {
            Some(call) => seq![call],
            None => seq![],
        })
    }
}

/// Whether `msg` makes the agent stop: its text, trimmed and in lower case,
/// tells the agent to shut down.
pub open spec fn step_stops(bot: BotView, msg: MessageView) -> bool {
    is_shutdown_phrase(bot.name, lowercase_of(trimmed(msg.message)))
}

/// What follows from `msg`. A message that tells the agent to shut down does
/// nothing else. Any other is read as an assignment and as a query, and then
/// held against the patterns that address the agent and against the others.
pub open spec fn step_effects(bot: BotView, msg: MessageView) -> Seq<EffectView> {
    let text = trimmed(msg.message);
    if step_stops(bot, msg) {
        shutdown_effects(bot.server, Some(msg))
    } else {
        writes(
            match answer(learned(bot.facts, bot.name, text), bot.name, text) {
                Some(value) => bot.server.outbound(msg.channel, value),
                None => None,
            },
        ) + firings(Trigger::Respond, bot.name, bot.respond, msg, text) + firings(
            Trigger::Hear,
            bot.name,
            bot.hear,
            msg,
            text,
        )
    }
}

/// The agent after `msg`: closed where the message told it to shut down,
/// else with what the message told it.
pub open spec fn step_next(bot: BotView, msg: MessageView) -> BotView {
    if step_stops(bot, msg) {
        BotView { server: bot.server.with_link(closed(bot.server.link())), ..bot }
    } else {
        BotView { facts: learned(bot.facts, bot.name, trimmed(msg.message)), ..bot }
    }
}

/// What follows from a batch of messages, taken in order: the agent after
/// them, what to do, and whether the agent is to stop. Nothing behind a
/// message that tells the agent to shut down is read.
pub open spec fn run_of(bot: BotView, inbox: Seq<MessageView>) -> (BotView, Seq<EffectView>, bool)
    decreases inbox.len(),
{
    if inbox.len() == 0 {
        (bot, seq![], false)
    } else if step_stops(bot, inbox[0]) {
        (step_next(bot, inbox[0]), step_effects(bot, inbox[0]), true)
    } else {
        let rest = run_of(step_next(bot, inbox[0]), inbox.drop_first());
        (rest.0, step_effects(bot, inbox[0]) + rest.1, rest.2)
    }
}

/// Whether a call of `pattern` from the table `trigger` is among `effects`.
pub open spec fn fires(effects: Seq<EffectView>, trigger: Trigger, pattern: Seq<char>) -> bool {
    exists|k: int|
        0 <= k < effects.len() && (#[trigger] effects[k] matches EffectView::Invoke {
            trigger: t,
            pattern: p,
            ..
        } && t == trigger && p == pattern)
}

/// Why an agent was not made.
#[derive(Debug, Clone, Copy, PartialEq, Eq, Structural)]
pub enum BotError {
    /// The configuration asks for an IRC session and gives no parameters
    /// for one.
    MissingConfig,
    /// With this name the reserved patterns are no regular expressions.
    InvalidName,
}

/// One entry of a table: the pattern as it was registered, the matcher it is
/// held against the text with, and the handler.
#[derive(Debug)]
pub struct PatternEntry {
    source: String,
    matcher: Pattern,
    handler: usize,
}

impl DeepView for PatternEntry {
    type V = EntryView;

    closed spec fn deep_view(&self) -> EntryView {
        EntryView { pattern: self.source@, handler: self.handler }
    }
}

/// Whether each entry of `table` holds the matcher of its pattern.
spec fn matchers_fit(trigger: Trigger, name: Seq<char>, table: Seq<PatternEntry>) -> bool {
    forall|i: int|
        0 <= i < table.len() ==> (#[trigger] table[i]).matcher@ == trigger_pattern(
            trigger,
            name,
            table[i].source@,
        )
}

/// The agent: its name, its two tables, what it has been told, and the
/// session it talks through.
#[derive(Debug)]
pub struct Bot {
    name: String,
    reaction: Vec<PatternEntry>,
    resp: Vec<PatternEntry>,
    state: StateStore,
    assignment: Pattern,
    query: Pattern,
    server: Session,
}

impl View for Bot {
    type V = BotView;

    closed spec fn view(&self) -> BotView {
        BotView {
            name: self.name@,
            hear: self.reaction.deep_view(),
            respond: self.resp.deep_view(),
            facts: self.state@,
            server: self.server,
        }
    }
}

/// `name` said before `word`, with `between` between them.
fn reads_addressed(chars: &Vec<char>, name: &Vec<char>, between: &str, word: &str) -> (r: bool)
    ensures
        r == (chars@ == name@ + between@ + word@),
{
    let gap = chars_of(between);
    let n: usize = name.len();
    let g: usize = gap.len();
    let len: usize = chars.len();
    let ghost whole = name@ + between@ + word@;
    if len < n || len - n < g {
        return false;
    }
    let mut i: usize = 0;
    while i < n
        invariant
            i <= n <= len,
            n == name.len(),
            len == chars.len(),
            whole == name@ + between@ + word@,
            forall|j: int| 0 <= j < i ==> chars@[j] == name@[j],
        decreases n - i,
    {
        if chars[i] != name[i] {
            assert(whole.len() >= n ==> whole[i as int] == name@[i as int]);
            return false;
        }
        i += 1;
    }
    let mut k: usize = 0;
    while k < g
        invariant
            k <= g,
            g == gap.len(),
            n == name.len(),
            len == chars.len(),
            len - n >= g,
            gap@ == between@,
            whole == name@ + between@ + word@,
            forall|j: int| 0 <= j < k ==> chars@[n + j] == gap@[j],
        decreases g - k,
    {
        if chars[n + k] != gap[k] {
            assert(whole.len() >= n + g ==> whole[n + k] == gap@[k as int]);
            return false;
        }
        k += 1;
    }
    let r = reads(chars, n + g, len, word);
    proof {
        let tail = chars@.subrange(n + g, len as int);
        if r {
            assert(chars@ =~= whole);
        } else {
            if chars@ == whole {
                assert(tail =~= word@);
            }
        }
    }
    r
}

/// Whether `chars` is `word` said to the agent called `name`.
fn says_word(chars: &Vec<char>, name: &Vec<char>, word: &str) -> (r: bool)
    ensures
        r == says(name@, chars@, word@),
{
    reads_addressed(chars, name, " ", word) || reads_addressed(chars, name, ": ", word)
}

/// Whether `s` tells the agent called `name` to shut down. The text is taken
/// as it is: whoever calls trims it and puts it in lower case.
pub fn has_shutdown(name: &str, s: &str) -> (r: bool)
    ensures
        r == is_shutdown_phrase(name@, s@),
{
    let chars = chars_of(s);
    let name_chars = chars_of(name);
    says_word(&chars, &name_chars, "shutdown") || says_word(&chars, &name_chars, "exit")
        || says_word(&chars, &name_chars, "quit")
}

/// The text of `anchored(name, pattern)`.
fn anchor(name: &str, pattern: &str) -> (text: String)
    ensures
        text@ == anchored(name@, pattern@),
{
    let mut text = String::new();
    text.append("^");
    text.append(name);
    text.append(":? +?");
    text.append(pattern);
    text
}

/// Where `pattern` stands in `table`, if it does.
fn find_pattern(table: &Vec<PatternEntry>, pattern: &str) -> (at: Option<usize>)
    ensures
        at is Some == has_pattern(table.deep_view(), pattern@),
        at matches Some(i) ==> i < table.len() && table[i as int].source@ == pattern@,
{
    let mut i: usize = 0;
    while i < table.len()
        invariant
            i <= table.len(),
            forall|j: int| 0 <= j < i ==> table[j].source@ != pattern@,
        decreases table.len() - i,
    {
        if crate::text::same(table[i].source.as_str(), pattern) {
            assert(table.deep_view()[i as int].pattern == pattern@);
            return Some(i);
        }
        i += 1;
    }
    assert(!has_pattern(table.deep_view(), pattern@)) by {
        assert forall|j: int| 0 <= j < table.deep_view().len() implies table.deep_view()[j].pattern
            != pattern@ by {
            assert(table.deep_view()[j].pattern == table[j].source@);
        }
    }
    None
}

/// Registers `pattern` in `table`, unless it stands there already.
fn register(
    table: &mut Vec<PatternEntry>,
    trigger: Trigger,
    name: &str,
    pattern: &str,
    handler: usize,
) -> (r: Result<(), InvalidPattern>)
    requires
        matchers_fit(trigger, name@, old(table)@),
        distinct_patterns(old(table).deep_view()),
        all_compile(trigger, name@, old(table).deep_view()),
    ensures
        matchers_fit(trigger, name@, final(table)@),
        distinct_patterns(final(table).deep_view()),
        all_compile(trigger, name@, final(table).deep_view()),
        r is Ok == regex_compiles(trigger_pattern(trigger, name@, pattern@)),
        r is Ok ==> final(table).deep_view() == registered(
            old(table).deep_view(),
            pattern@,
            handler,
        ),
        r matches Err(e) ==> final(table)@ == old(table)@ && e.pattern@ == trigger_pattern(
            trigger,
            name@,
            pattern@,
        ),
{
    let ghost before = table.deep_view();
    match find_pattern(table, pattern) {
        Some(i) => {
            assert(before[i as int].pattern == pattern@);
            Ok(())
        },
        None => {
            let compiled = match trigger {
                Trigger::Hear => Pattern::compile(pattern),
                Trigger::Respond => {
                    let text = anchor(name, pattern);
                    Pattern::compile(text.as_str())
                },
            };
            match compiled {
                Ok(matcher) => {
                    table.push(PatternEntry { source: pattern.to_owned(), matcher, handler });
                    proof {
                        let after = table.deep_view();
                        assert(after =~= before.push(EntryView { pattern: pattern@, handler }));
                        assert forall|i: int, j: int| 0 <= i < j < after.len() implies after[i].pattern
                            != after[j].pattern by {
                            assert(after[i] == before[i]);
                            if j < before.len() {
                                assert(after[j] == before[j]);
                            }
                        }
                        assert forall|i: int| 0 <= i < after.len() implies regex_compiles(
                            trigger_pattern(trigger, name@, (#[trigger] after[i]).pattern),
                        ) by {
                            if i < before.len() {
                                assert(after[i] == before[i]);
                            }
                        }
                    }
                    Ok(())
                },
                Err(e) => Err(e),
            }
        },
    }
}

/// Every pattern of `table` is a regular expression.
pub open spec fn all_compile(trigger: Trigger, name: Seq<char>, table: Seq<EntryView>) -> bool {
    forall|i: int|
        0 <= i < table.len() ==> regex_compiles(
            trigger_pattern(trigger, name, (#[trigger] table[i]).pattern),
        )
}

/// Adds to `effects` the calls that `table` gives rise to for `msg`.
fn fire(
    table: &Vec<PatternEntry>,
    trigger: Trigger,
    name: Ghost<Seq<char>>,
    msg: &Message,
    text: &str,
    effects: &mut Vec<Effect>,
)
    requires
        matchers_fit(trigger, name@, table@),
    ensures
        final(effects).deep_view() == old(effects).deep_view() + firings(
            trigger,
            name@,
            table.deep_view(),
            msg@,
            text@,
        ),
{
    let ghost start = effects.deep_view();
    let ghost entries = table.deep_view();
    let mut i: usize = 0;
    assert(entries.take(0) =~= Seq::<EntryView>::empty());
    while i < table.len()
        invariant
            i <= table.len(),
            entries == table.deep_view(),
            matchers_fit(trigger, name@, table@),
            effects.deep_view() == start + firings(trigger, name@, entries.take(i as int), msg@, text@),
        decreases table.len() - i,
    {
        let ghost so_far = effects.deep_view();
        let entry = &table[i];
        proof {
            assert(entries.take(i + 1).drop_last() =~= entries.take(i as int));
            assert(entries.take(i + 1).last() == entries[i as int]);
            assert(entries[i as int] == entry.deep_view());
        }
        match entry.matcher.captures(text) {
            Some(captures) => {
                effects.push(
                    Effect::Invoke {
                        trigger,
                        pattern: entry.source.clone(),
                        handler: entry.handler,
                        channel: msg.channel.clone(),
                        nick: msg.nick.clone(),
                        text: text.to_owned(),
                        captures,
                    },
                );
                assert(effects.deep_view() =~= so_far.push(
                    firing(trigger, name@, entries[i as int], msg@, text@)->0,
                ));
            },
            None => {
                assert(effects.deep_view() =~= so_far);
            },
        }
        i += 1;
    }
    assert(entries.take(i as int) =~= entries);
}

impl Bot {
    /// What holds of every agent: its tables hold no pattern twice, every
    /// pattern in them is a regular expression, and what it has been told is
    /// what its state store holds.
    pub open spec fn wf(&self) -> bool {
        &&& self.inv()
        &&& self.store()@ == self@.facts
        &&& distinct_patterns(self@.hear)
        &&& distinct_patterns(self@.respond)
        &&& all_compile(Trigger::Hear, self@.name, self@.hear)
        &&& all_compile(Trigger::Respond, self@.name, self@.respond)
    }

    /// What the agent keeps to itself: the matchers fit their patterns, and
    /// the state store is well formed.
    pub closed spec fn inv(&self) -> bool {
        &&& self.state.wf()
        &&& self.assignment@ == anchored(self.name@, ASSIGNMENT@)
        &&& self.query@ == anchored(self.name@, QUERY@)
        &&& matchers_fit(Trigger::Hear, self.name@, self.reaction@)
        &&& matchers_fit(Trigger::Respond, self.name@, self.resp@)
    }

    /// The agent that `config` describes, with the state that `snapshot`
    /// holds. A console session is named after the agent; an IRC session takes
    /// its parameters from the configuration.
    pub fn new(config: Config, snapshot: &[u8]) -> (r: Result<Bot, BotError>)
        ensures
            r matches Ok(bot) ==> {
                &&& bot.wf()
                &&& bot@.name == config.name@
                &&& bot@.hear.len() == 0
                &&& bot@.respond.len() == 0
                &&& bot@.facts == loaded(snapshot@)
                &&& bot@.server.link() is Idle
                &&& match config.server {
                    ServerType::Shell => bot@.server matches Session::Shell(shell) && shell.name()
                        == config.name@ && shell.width() == name_column(config.name@),
                    ServerType::Irc => bot@.server matches Session::Irc(irc) && Some(irc.config())
                        == config.irc,
                }
            },
            r matches Err(e) ==> e == (if config.server is Irc && config.irc is None {
                BotError::MissingConfig
            } else {
                BotError::InvalidName
            }),
            r is Ok <==> !(config.server is Irc && config.irc is None) && regex_compiles(
                anchored(config.name@, ASSIGNMENT@),
            ) && regex_compiles(anchored(config.name@, QUERY@)),
    {
        let server = match config.server {
            ServerType::Shell => Session::Shell(Shell::new(config.name.clone())),
            ServerType::Irc => match config.irc {
                Some(irc) => Session::Irc(Irc::new(irc)),
                None => {
                    return Err(BotError::MissingConfig);
                },
            },
        };
        let assignment = match Pattern::compile(anchor(config.name.as_str(), ASSIGNMENT).as_str()) {
            Ok(pattern) => pattern,
            Err(_) => {
                return Err(BotError::InvalidName);
            },
        };
        let query = match Pattern::compile(anchor(config.name.as_str(), QUERY).as_str()) {
            Ok(pattern) => pattern,
            Err(_) => {
                return Err(BotError::InvalidName);
            },
        };
        let state = StateStore::load(snapshot);
        let bot = Bot {
            name: config.name,
            reaction: Vec::new(),
            resp: Vec::new(),
            state,
            assignment,
            query,
            server,
        };
        assert(bot@.hear =~= Seq::<EntryView>::empty());
        assert(bot@.respond =~= Seq::<EntryView>::empty());
        Ok(bot)
    }

    /// Registers a pattern that is held against the text as it is. A pattern
    /// that stands in the table already is left as it is, with its handler.
    /// The pattern is refused if it is no regular expression.
    pub fn hear(&mut self, pattern: &str, handler: usize) -> (r: Result<(), InvalidPattern>)
        requires
            old(self).wf(),
        ensures
            final(self).wf(),
            r is Ok == regex_compiles(pattern@),
            r is Ok ==> final(self)@ == (BotView {
                hear: registered(old(self)@.hear, pattern@, handler),
                ..old(self)@
            }),
            r matches Err(e) ==> final(self)@ == old(self)@ && e.pattern@ == pattern@,
    {
        let r = register(
            &mut self.reaction,
            Trigger::Hear,
            self.name.as_str(),
            pattern,
            handler,
        );
        r
    }

    /// Registers a pattern that is held against text that addresses the
    /// agent by name. A pattern that stands in the table already is left as
    /// it is, with its handler. The pattern is refused if, behind the name,
    /// it is no regular expression.
    pub fn respond(&mut self, pattern: &str, handler: usize) -> (r: Result<(), InvalidPattern>)
        requires
            old(self).wf(),
        ensures
            final(self).wf(),
            r is Ok == regex_compiles(anchored(old(self)@.name, pattern@)),
            r is Ok ==> final(self)@ == (BotView {
                respond: registered(old(self)@.respond, pattern@, handler),
                ..old(self)@
            }),
            r matches Err(e) ==> final(self)@ == old(self)@ && e.pattern@ == anchored(
                old(self)@.name,
                pattern@,
            ),
    {
        let r = register(&mut self.resp, Trigger::Respond, self.name.as_str(), pattern, handler);
        r
    }

    /// Registers the patterns of the built-in handlers: `ping` and `ipaddr`,
    /// both for text that addresses the agent. It stops at the first that is
    /// refused.
    pub fn install_actions(&mut self) -> (r: Result<(), InvalidPattern>)
        requires
            old(self).wf(),
        ensures
            final(self).wf(),
            r is Ok == (regex_compiles(anchored(old(self)@.name, "ping"@)) && regex_compiles(
                anchored(old(self)@.name, "ipaddr"@),
            )),
            final(self)@ == (BotView {
                respond: if !regex_compiles(anchored(old(self)@.name, "ping"@)) {
                    old(self)@.respond
                } else if !regex_compiles(anchored(old(self)@.name, "ipaddr"@)) {
                    registered(old(self)@.respond, "ping"@, PING)
                } else {
                    registered(registered(old(self)@.respond, "ping"@, PING), "ipaddr"@, IFCONFIG)
                },
                ..old(self)@
            }),
    {
        match self.respond("ping", PING) {
            Ok(()) => self.respond("ipaddr", IFCONFIG),
            Err(e) => Err(e),
        }
    }

    /// The session the agent talks through.
    pub fn server(&self) -> (server: &Session)
        ensures
            *server == self@.server,
    {
        &self.server
    }

    /// Marks the session open. Only a session that was never opened can be.
    pub fn connect(&mut self) -> (r: Result<(), SessionError>)
        requires
            old(self).wf(),
        ensures
            final(self).wf(),
            final(self)@ == (BotView {
                server: old(self)@.server.with_link(opened(old(self)@.server.link())),
                ..old(self)@
            }),
            r == match old(self)@.server.link() {
                Link::Idle => Ok::<(), SessionError>(()),
                Link::Up => Err::<(), SessionError>(SessionError::AlreadyConnected),
                Link::Down => Err::<(), SessionError>(SessionError::Closed),
            },
    {
        self.server.connect()
    }

    /// The bytes that say `message` on `channel`, if the session writes any.
    pub fn send(&self, channel: &str, message: &str) -> (out: Option<String>)
        ensures
            out.deep_view() == self@.server.outbound(channel@, message@),
    {
        self.server.send(channel, message)
    }

    /// The bytes that say `message` to `nick` on `channel`, if the session
    /// writes any.
    pub fn reply(&self, channel: &str, nick: &str, message: &str) -> (out: Option<String>)
        ensures
            out.deep_view() == self@.server.outbound(channel@, nick@ + ": "@ + message@),
    {
        let mut text = String::new();
        text.append(nick);
        text.append(": ");
        text.append(message);
        self.server.send(channel, text.as_str())
    }

    /// Tells the agent that `k` is `v`.
    pub fn set(&mut self, k: &str, v: &str)
        requires
            old(self).wf(),
        ensures
            final(self).wf(),
            final(self)@ == (BotView { facts: old(self)@.facts.insert(k@, v@), ..old(self)@ }),
    {
        self.state.set(k, v);
    }

    /// What the agent has been told that `k` is, if anything.
    pub fn get(&self, k: &str) -> (value: Option<&String>)
        requires
            self.wf(),
        ensures
            match value {
                Some(v) => self@.facts.contains_key(k@) && v@ == self@.facts[k@],
                None => !self@.facts.contains_key(k@),
            },
    {
        self.state.get(k)
    }

    /// The state store of the agent. What the agent has been told is what
    /// the store holds.
    pub closed spec fn store(&self) -> StateStore {
        self.state
    }

    /// A snapshot of what the agent has been told: what `bincode` writes for
    /// the pairs of the state store. It fails where `bincode` does.
    /// `Bot::new` reads the snapshot back as what the agent has been told.
    pub fn snapshot(&self) -> (r: Result<Vec<u8>, crate::store::SnapshotError>)
        ensures
            r is Ok == self.store().snapshot() is Some,
            r matches Ok(bytes) ==> Some(bytes@) == self.store().snapshot() && loaded(bytes@)
                == self@.facts,
    {
        self.state.dump()
    }

    /// Shuts the agent down: says farewell on the channel of `msg`, if there
    /// is one, and closes the session. The effects say what is left to do.
    pub fn shutdown(&mut self, msg: Option<&Message>) -> (effects: Vec<Effect>)
        requires
            old(self).wf(),
        ensures
            final(self).wf(),
            final(self)@ == (BotView {
                server: old(self)@.server.with_link(closed(old(self)@.server.link())),
                ..old(self)@
            }),
            effects.deep_view() == shutdown_effects(old(self)@.server, msg.deep_view()),
    {
        let mut effects: Vec<Effect> = Vec::new();
        assert(effects.deep_view() =~= Seq::<EffectView>::empty());
        if let Some(m) = msg {
            if let Some(bytes) = self.server.send(m.channel.as_str(), FAREWELL) {
                effects.push(Effect::Write(bytes));
                assert(effects.deep_view() =~= seq![EffectView::Write(bytes@)]);
            }
        }
        let ghost said = effects.deep_view();
        self.server.disconnect();
        effects.push(Effect::Disconnect);
        effects.push(Effect::Persist);
        assert(effects.deep_view() =~= said + seq![EffectView::Disconnect, EffectView::Persist]);
        effects
    }

    /// Takes one message and says what follows from it.
    pub fn step(&mut self, msg: &Message) -> (out: Step)
        requires
            old(self).wf(),
        ensures
            final(self).wf(),
            final(self)@ == step_next(old(self)@, msg@),
            out.effects.deep_view() == step_effects(old(self)@, msg@),
            out.stop == step_stops(old(self)@, msg@),
    {
        let text = msg.trim();
        let lowered = to_lowercase(text);
        if has_shutdown(self.name.as_str(), lowered.as_str()) {
            let effects = self.shutdown(Some(msg));
            return Step { effects, stop: true };
        }
        let ghost before = self@;
        if let Some(groups) = self.assignment.captures(text) {
            if groups.len() > 2 {
                if let Some(key) = &groups[1] {
                    if let Some(value) = &groups[2] {
                        self.state.set(key.as_str(), value.as_str());
                    }
                }
            }
        }
        assert(self@.facts == learned(before.facts, before.name, text@));
        let mut effects: Vec<Effect> = Vec::new();
        assert(effects.deep_view() =~= Seq::<EffectView>::empty());
        if let Some(groups) = self.query.captures(text) {
            if groups.len() > 1 {
                if let Some(key) = &groups[1] {
                    if let Some(value) = self.state.get(key.as_str()) {
                        if let Some(bytes) = self.server.send(
                            msg.channel.as_str(),
                            value.as_str(),
                        ) {
                            effects.push(Effect::Write(bytes));
                            assert(effects.deep_view() =~= seq![EffectView::Write(bytes@)]);
                        }
                    }
                }
            }
        }
        assert(effects.deep_view() == writes(
            match answer(self@.facts, before.name, text@) {
                Some(value) => before.server.outbound(msg@.channel, value),
                None => None,
            },
        ));
        fire(&self.resp, Trigger::Respond, Ghost(self.name@), msg, text, &mut effects);
        fire(&self.reaction, Trigger::Hear, Ghost(self.name@), msg, text, &mut effects);
        Step { effects, stop: false }
    }

    /// Takes a batch of messages in order, up to the first that tells the
    /// agent to shut down, and says what follows from them.
    pub fn run(&mut self, inbox: &Vec<Message>) -> (out: Step)
        requires
            old(self).wf(),
        ensures
            final(self).wf(),
            final(self)@ == run_of(old(self)@, inbox.deep_view()).0,
            out.effects.deep_view() == run_of(old(self)@, inbox.deep_view()).1,
            out.stop == run_of(old(self)@, inbox.deep_view()).2,
    {
        let ghost start = self@;
        let ghost all = inbox.deep_view();
        let mut effects: Vec<Effect> = Vec::new();
        assert(effects.deep_view() =~= Seq::<EffectView>::empty());
        let mut i: usize = 0;
        proof {
            assert(all.skip(0) =~= all);
            let rest = run_of(start, all);
            assert(effects.deep_view() + rest.1 =~= rest.1);
        }
        while i < inbox.len()
            invariant
                i <= inbox.len(),
                all == inbox.deep_view(),
                start == old(self)@,
                self.wf(),
                run_of(start, all) == ({
                    let rest = run_of(self@, all.skip(i as int));
                    (rest.0, effects.deep_view() + rest.1, rest.2)
                }),
            decreases inbox.len() - i,
        {
            let ghost here = self@;
            let ghost done = effects.deep_view();
            let ghost left = all.skip(i as int);
            let ghost whole = run_of(start, all);
            assert(whole == (run_of(here, left).0, done + run_of(here, left).1, run_of(here, left).2));
            assert(left.len() > 0);
            assert(left[0] == inbox[i as int]@);
            assert(left.drop_first() =~= all.skip(i + 1));
            let mut step = self.step(&inbox[i]);
            let ghost added = step.effects.deep_view();
            effects.append(&mut step.effects);
            assert(effects.deep_view() =~= done + added);
            if step.stop {
                assert(run_of(here, left) == (self@, added, true));
                assert(whole == (self@, done + added, true));
                return Step { effects, stop: true };
            }
            proof {
                let rest = run_of(self@, all.skip(i + 1));
                assert(run_of(here, left) == (rest.0, added + rest.1, rest.2));
                assert(done + (added + rest.1) =~= (done + added) + rest.1);
            }
            i += 1;
        }
        proof {
            assert(all.skip(i as int).len() == 0);
            assert(effects.deep_view() + Seq::<EffectView>::empty() =~= effects.deep_view());
        }
        Step { effects, stop: false }
    }
}

/// A call is among two lists of effects put together if and only if it is
/// among one of them.
proof fn lemma_fires_either(a: Seq<EffectView>, b: Seq<EffectView>, trigger: Trigger, pattern: Seq<char>)
    ensures
        fires(a + b, trigger, pattern) <==> fires(a, trigger, pattern) || fires(b, trigger, pattern),
{
    let both = a + b;
    if fires(a, trigger, pattern) {
        let k = choose|k: int|
            0 <= k < a.len() && (#[trigger] a[k] matches EffectView::Invoke { trigger: t, pattern: p, .. }
                && t == trigger && p == pattern);
        assert(both[k] == a[k]);
    }
    if fires(b, trigger, pattern) {
        let k = choose|k: int|
            0 <= k < b.len() && (#[trigger] b[k] matches EffectView::Invoke { trigger: t, pattern: p, .. }
                && t == trigger && p == pattern);
        assert(both[a.len() + k] == b[k]);
    }
    if fires(both, trigger, pattern) {
        let k = choose|k: int|
            0 <= k < both.len() && (#[trigger] both[k] matches EffectView::Invoke {
                trigger: t,
                pattern: p,
                ..
            } && t == trigger && p == pattern);
        if k < a.len() {
            assert(a[k] == both[k]);
        } else {
            assert(b[k - a.len()] == both[k]);
        }
    }
}

/// A table calls the handler of a pattern if and only if the pattern stands
/// in it and its regular expression matches the text.
pub proof fn lemma_table_fires(
    trigger: Trigger,
    name: Seq<char>,
    table: Seq<EntryView>,
    msg: MessageView,
    text: Seq<char>,
    asked: Trigger,
    pattern: Seq<char>,
)
    ensures
        fires(firings(trigger, name, table, msg, text), asked, pattern) <==> asked == trigger
            && has_pattern(table, pattern) && regex_matches(
            trigger_pattern(trigger, name, pattern),
            text,
        ),
    decreases table.len(),
{
    let calls = firings(trigger, name, table, msg, text);
    if table.len() == 0 {
    } else {
        let head = table.drop_last();
        let last = table.last();
        let tail: Seq<EffectView> = match firing(trigger, name, last, msg, text) {
            Some(call) => seq![call],
            None => seq![],
        };
        lemma_table_fires(trigger, name, head, msg, text, asked, pattern);
        lemma_fires_either(firings(trigger, name, head, msg, text), tail, asked, pattern);
        if has_pattern(head, pattern) {
            let i = choose|i: int| 0 <= i < head.len() && #[trigger] head[i].pattern == pattern;
            assert(table[i] == head[i]);
        }
        if has_pattern(table, pattern) {
            let i = choose|i: int| 0 <= i < table.len() && #[trigger] table[i].pattern == pattern;
            if i < head.len() {
                assert(head[i] == table[i]);
            }
        }
        if fires(tail, asked, pattern) {
            let k = choose|k: int|
                0 <= k < tail.len() && (#[trigger] tail[k] matches EffectView::Invoke {
                    trigger: t,
                    pattern: p,
                    ..
                } && t == asked && p == pattern);
            assert(table[table.len() - 1].pattern == pattern);
        }
        if asked == trigger && last.pattern == pattern && regex_matches(
            trigger_pattern(trigger, name, pattern),
            text,
        ) {
            assert(tail[0] is Invoke);
        }
    }
}

/// The handler of a pattern that was registered for hearing is called for a
/// message if and only if the pattern matches the trimmed text of the
/// message, whatever the agent is called. This is said of the messages that
/// do not tell the agent to shut down: on those no handler is called.
pub proof fn lemma_hear_fires_iff_matches(bot: BotView, msg: MessageView, pattern: Seq<char>)
    requires
        has_pattern(bot.hear, pattern),
        !step_stops(bot, msg),
    ensures
        fires(step_effects(bot, msg), Trigger::Hear, pattern) <==> regex_matches(
            pattern,
            trimmed(msg.message),
        ),
{
    let text = trimmed(msg.message);
    let said = writes(
        match answer(learned(bot.facts, bot.name, text), bot.name, text) {
            Some(value) => bot.server.outbound(msg.channel, value),
            None => None,
        },
    );
    let addressed = firings(Trigger::Respond, bot.name, bot.respond, msg, text);
    let heard = firings(Trigger::Hear, bot.name, bot.hear, msg, text);
    lemma_fires_either(said + addressed, heard, Trigger::Hear, pattern);
    lemma_fires_either(said, addressed, Trigger::Hear, pattern);
    lemma_table_fires(Trigger::Respond, bot.name, bot.respond, msg, text, Trigger::Hear, pattern);
    lemma_table_fires(Trigger::Hear, bot.name, bot.hear, msg, text, Trigger::Hear, pattern);
}

/// The handler of a pattern that was registered for responding is called for
/// a message if and only if the trimmed text of the message matches the
/// pattern behind the agent's name: `^name:? +?pattern`. This is said of the
/// messages that do not tell the agent to shut down.
pub proof fn lemma_respond_fires_iff_addressed(bot: BotView, msg: MessageView, pattern: Seq<char>)
    requires
        has_pattern(bot.respond, pattern),
        !step_stops(bot, msg),
    ensures
        fires(step_effects(bot, msg), Trigger::Respond, pattern) <==> regex_matches(
            anchored(bot.name, pattern),
            trimmed(msg.message),
        ),
{
    let text = trimmed(msg.message);
    let said = writes(
        match answer(learned(bot.facts, bot.name, text), bot.name, text) {
            Some(value) => bot.server.outbound(msg.channel, value),
            None => None,
        },
    );
    let addressed = firings(Trigger::Respond, bot.name, bot.respond, msg, text);
    let heard = firings(Trigger::Hear, bot.name, bot.hear, msg, text);
    lemma_fires_either(said + addressed, heard, Trigger::Respond, pattern);
    lemma_fires_either(said, addressed, Trigger::Respond, pattern);
    lemma_table_fires(Trigger::Respond, bot.name, bot.respond, msg, text, Trigger::Respond, pattern);
    lemma_table_fires(Trigger::Hear, bot.name, bot.hear, msg, text, Trigger::Respond, pattern);
}

/// Registering a pattern a second time changes nothing: the table then holds
/// the pattern at one place and no other, with the handler it was first
/// given.
pub proof fn lemma_registered_once(
    table: Seq<EntryView>,
    pattern: Seq<char>,
    first: usize,
    second: usize,
)
    requires
        distinct_patterns(table),
    ensures
        registered(registered(table, pattern, first), pattern, second) == registered(
            table,
            pattern,
            first,
        ),
        distinct_patterns(registered(table, pattern, first)),
        has_pattern(registered(table, pattern, first), pattern),
        forall|i: int, j: int|
            0 <= i < registered(table, pattern, first).len() && 0 <= j < registered(
                table,
                pattern,
                first,
            ).len() && #[trigger] registered(table, pattern, first)[i].pattern == pattern
                && #[trigger] registered(table, pattern, first)[j].pattern == pattern ==> i == j,
{
    let once = registered(table, pattern, first);
    if !has_pattern(table, pattern) {
        assert(once[table.len() as int].pattern == pattern);
        assert forall|i: int, j: int| 0 <= i < j < once.len() implies once[i].pattern
            != once[j].pattern by {
            assert(once[i] == table[i]);
            if j < table.len() {
                assert(once[j] == table[j]);
            }
        }
    }
    assert forall|i: int, j: int|
        0 <= i < once.len() && 0 <= j < once.len() && once[i].pattern == pattern && once[j].pattern
            == pattern implies i == j by {
        if i < j {
            assert(once[i].pattern != once[j].pattern);
        }
        if j < i {
            assert(once[j].pattern != once[i].pattern);
        }
    }
}

/// What the agent was told it gives back: after a message that assigns
/// `value` to `key`, a query for `key` is answered with `value`.
pub proof fn lemma_told_then_asked(
    facts: Map<Seq<char>, Seq<char>>,
    name: Seq<char>,
    told: Seq<char>,
    asked: Seq<char>,
    key: Seq<char>,
    value: Seq<char>,
)
    requires
        regex_captures(anchored(name, ASSIGNMENT@), told) matches Some(groups) && groups.len() > 2
            && groups[1] == Some(key) && groups[2] == Some(value),
        regex_captures(anchored(name, QUERY@), asked) matches Some(groups) && groups.len() > 1
            && groups[1] == Some(key),
    ensures
        answer(learned(facts, name, told), name, asked) == Some(value),
{
}

/// A query for a key that the agent was told nothing about gets no answer.
pub proof fn lemma_asked_untold(
    facts: Map<Seq<char>, Seq<char>>,
    name: Seq<char>,
    asked: Seq<char>,
    key: Seq<char>,
)
    requires
        regex_captures(anchored(name, QUERY@), asked) matches Some(groups) && groups.len() > 1
            && groups[1] == Some(key),
        !facts.contains_key(key),
    ensures
        answer(facts, name, asked) is None,
{
}

/// A message that reads, trimmed and in lower case, as the agent's name, a
/// colon, a blank and `exit` stops the agent, in whatever letter case it was
/// written: the farewell is said, the session is closed once, the state
/// store is persisted after that, and nothing else is done. What the agent
/// was told stays as it is.
pub proof fn lemma_exit_stops(bot: BotView, msg: MessageView)
    requires
        lowercase_of(trimmed(msg.message)) == bot.name + ": "@ + "exit"@,
    ensures
        step_stops(bot, msg),
        step_effects(bot, msg) == writes(bot.server.outbound(msg.channel, FAREWELL@)) + seq![
            EffectView::Disconnect,
            EffectView::Persist,
        ],
        step_next(bot, msg).server.link() == closed(bot.server.link()),
        !(step_next(bot, msg).server.link() is Up),
        step_next(bot, msg).facts == bot.facts,
{
    bot.server.lemma_with_link(closed(bot.server.link()));
}

/// A batch of messages is read up to the first that tells the agent to shut
/// down: what stands behind it changes nothing.
pub proof fn lemma_run_ends_at_shutdown(bot: BotView, msg: MessageView, rest: Seq<MessageView>)
    requires
        step_stops(bot, msg),
    ensures
        run_of(bot, seq![msg] + rest) == (step_next(bot, msg), step_effects(bot, msg), true),
{
    assert((seq![msg] + rest)[0] == msg);
}

} // verus!
