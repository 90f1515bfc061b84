use std::collections::HashMap;

use hongbot_rs::action::{Action, IFCONFIG, PING, PING_DELAY};
use hongbot_rs::bot::{has_shutdown, Bot, BotError, Effect, Message, Trigger};
use hongbot_rs::config::{Config, IrcConfig, ServerType};
use hongbot_rs::http::status;
use hongbot_rs::pattern::Pattern;
use hongbot_rs::server::{Server, Session, SessionError};
use hongbot_rs::store::StateStore;
use regex::Regex;

fn shell_config(name: &str) -> Config {
    Config { name: name.to_string(), server: ServerType::Shell, scripts: vec![], irc: None }
}

fn irc_config(name: &str) -> Config {
    Config {
        name: name.to_string(),
        server: ServerType::Irc,
        scripts: vec![],
        irc: Some(IrcConfig {
            nick: name.to_string(),
            user: None,
            pass: None,
            realname: None,
            addr: "localhost:6667".to_string(),
            channels: vec!["#bots".to_string()],
        }),
    }
}

fn bot(name: &str) -> Bot {
    Bot::new(shell_config(name), &[]).unwrap()
}

fn said(text: &str) -> Message {
    Message { channel: "#shell".to_string(), nick: "you".to_string(), message: text.to_string() }
}

fn handlers(effects: &[Effect]) -> Vec<(Trigger, usize)> {
    let mut found = Vec::new();
    for effect in effects {
        if let Effect::Invoke { trigger, handler, .. } = effect {
            found.push((*trigger, *handler));
        }
    }
    found
}

fn written(effects: &[Effect]) -> Vec<String> {
    let mut found = Vec::new();
    for effect in effects {
        if let Effect::Write(bytes) = effect {
            found.push(bytes.clone());
        }
    }
    found
}

#[test]
fn test_has_shutdown() {
    let s = "hongbot: exit";
    let name = "hongbot";
    assert!(name.eq(&s[0..name.len()]));
    assert_eq!(name, &s[0..name.len()]);
    assert_eq!(&s[(name.len() + 2)..], "exit");
    assert_eq!(s[(name.len() + 1)..].trim(), "exit");
    assert!(has_shutdown(name, s));
}

#[test]
fn test_regex() {
    let re = Regex::new(r"ping (\d+)").unwrap();
    let caps = re.captures("ping ??");
    assert!(caps.is_none());

    let caps = re.captures("ping 5");
    assert!(caps.is_some());
    let caps = caps.unwrap();
    assert_eq!(caps.len(), 2);
    assert_eq!(caps.get(0).unwrap().as_str(), "ping 5");
    assert_eq!(caps.get(1).unwrap().as_str(), "5");
}

#[test]
fn pattern_hands_out_the_groups_of_the_match() {
    let pattern = Pattern::compile(r"ping (\d+)").unwrap();
    assert_eq!(pattern.source(), r"ping (\d+)");
    assert_eq!(pattern.captures("ping ??"), None);
    assert_eq!(
        pattern.captures("ping 5"),
        Some(vec![Some("ping 5".to_string()), Some("5".to_string())])
    );
    assert_eq!(
        pattern.captures("so ping 12 and ping 13"),
        Some(vec![Some("ping 12".to_string()), Some("12".to_string())])
    );
    let either = Pattern::compile(r"[a-z]+(?:([0-9]+)|([A-Z]+))").unwrap();
    assert_eq!(
        either.captures("abc123"),
        Some(vec![Some("abc123".to_string()), Some("123".to_string()), None])
    );
}

#[test]
fn pattern_that_is_no_regular_expression_is_refused() {
    let refused = Pattern::compile("foo(bar").unwrap_err();
    assert_eq!(refused.pattern, "foo(bar");
    assert!(Pattern::compile(r"\w{1000}").is_err());
    assert!(Pattern::compile("").is_ok());
}

#[test]
fn shutdown_takes_the_name_a_colon_or_none_a_blank_and_the_word() {
    assert!(has_shutdown("hongbot", "hongbot: exit"));
    assert!(has_shutdown("hongbot", "hongbot exit"));
    assert!(has_shutdown("hongbot", "hongbot: quit"));
    assert!(has_shutdown("hongbot", "hongbot shutdown"));
    assert!(has_shutdown("hongbot", "hongbot: shutdown"));
    assert!(has_shutdown("", " quit"));
    assert!(has_shutdown("bot:", "bot: exit"));
    assert!(has_shutdown("홍봇", "홍봇: exit"));

    assert!(!has_shutdown("hongbot", "exit"));
    assert!(!has_shutdown("hongbot", "hongbot"));
    assert!(!has_shutdown("hongbot", "hongbot: "));
    assert!(!has_shutdown("hongbot", "hongbot:exit"));
    assert!(!has_shutdown("hongbot", "hongbot:  exit"));
    assert!(!has_shutdown("hongbot", "hongbot; exit"));
    assert!(!has_shutdown("hongbot", "hongbot: exit now"));
    assert!(!has_shutdown("hongbot", "hongbot: EXIT"));
    assert!(!has_shutdown("hongbot", "otherbot: exit"));
    assert!(!has_shutdown("hongbot", "xhongbot: exit"));
    assert!(!has_shutdown("hongbot", ""));
}

#[test]
fn hear_fires_when_its_pattern_matches_whatever_the_name() {
    let mut bot = bot("hongbot");
    bot.hear(r"ping (\d+)", 7).unwrap();

    let out = bot.step(&said("well ping 5 then"));
    assert!(!out.stop);
    assert_eq!(out.effects.len(), 1);
    match &out.effects[0] {
        Effect::Invoke { trigger, pattern, handler, channel, nick, text, captures } => {
            assert_eq!(*trigger, Trigger::Hear);
            assert_eq!(pattern, r"ping (\d+)");
            assert_eq!(*handler, 7);
            assert_eq!(channel, "#shell");
            assert_eq!(nick, "you");
            assert_eq!(text, "well ping 5 then");
            assert_eq!(captures, &vec![Some("ping 5".to_string()), Some("5".to_string())]);
        }
        other => panic!("unexpected effect {:?}", other),
    }

    assert_eq!(handlers(&bot.step(&said("hongbot: ping 5")).effects), vec![(Trigger::Hear, 7)]);
    assert_eq!(handlers(&bot.step(&said("otherbot: ping 5")).effects), vec![(Trigger::Hear, 7)]);
    assert_eq!(handlers(&bot.step(&said("ping ??")).effects), vec![]);
    assert_eq!(handlers(&bot.step(&said("pong")).effects), vec![]);
}

#[test]
fn handler_gets_the_trimmed_text() {
    let mut bot = bot("hongbot");
    bot.hear("^ping$", 1).unwrap();
    let out = bot.step(&said(" \t ping\r\n"));
    match &out.effects[0] {
        Effect::Invoke { text, .. } => assert_eq!(text, "ping"),
        other => panic!("unexpected effect {:?}", other),
    }
    assert_eq!(said("\u{2003}ping\u{a0}\u{3000}").trim(), "ping");
    assert_eq!(said("  ").trim(), "");
    assert_eq!(said("").trim(), "");
    assert_eq!(said("a  b").trim(), "a  b");
}

#[test]
fn respond_fires_only_when_the_agent_is_addressed() {
    let mut bot = bot("hongbot");
    bot.respond("ping", 3).unwrap();

    assert_eq!(handlers(&bot.step(&said("hongbot: ping")).effects), vec![(Trigger::Respond, 3)]);
    assert_eq!(handlers(&bot.step(&said("hongbot ping")).effects), vec![(Trigger::Respond, 3)]);
    assert_eq!(handlers(&bot.step(&said("hongbot:    ping")).effects), vec![(Trigger::Respond, 3)]);
    assert_eq!(handlers(&bot.step(&said("otherbot: ping")).effects), vec![]);
    assert_eq!(handlers(&bot.step(&said("otherhongbot: ping")).effects), vec![]);
    assert_eq!(handlers(&bot.step(&said("ping")).effects), vec![]);
    assert_eq!(handlers(&bot.step(&said("hongbot:ping")).effects), vec![]);

    let out = bot.step(&said("hongbot: ping"));
    match &out.effects[0] {
        Effect::Invoke { pattern, captures, .. } => {
            assert_eq!(pattern, "ping");
            assert_eq!(captures, &vec![Some("hongbot: ping".to_string())]);
        }
        other => panic!("unexpected effect {:?}", other),
    }
}

#[test]
fn both_tables_fire_and_respond_comes_first() {
    let mut bot = bot("hongbot");
    bot.hear("ping", 1).unwrap();
    bot.hear("pi", 2).unwrap();
    bot.respond("ping", 3).unwrap();
    bot.respond("p.ng", 4).unwrap();
    assert_eq!(
        handlers(&bot.step(&said("hongbot: ping")).effects),
        vec![(Trigger::Respond, 3), (Trigger::Respond, 4), (Trigger::Hear, 1), (Trigger::Hear, 2)]
    );
    assert_eq!(
        handlers(&bot.step(&said("ping")).effects),
        vec![(Trigger::Hear, 1), (Trigger::Hear, 2)]
    );
}

#[test]
fn registering_a_pattern_twice_keeps_the_first() {
    let mut bot = bot("hongbot");
    bot.hear("ping", 1).unwrap();
    bot.hear("ping", 2).unwrap();
    bot.respond("ping", 3).unwrap();
    bot.respond("ping", 4).unwrap();
    assert_eq!(handlers(&bot.step(&said("ping")).effects), vec![(Trigger::Hear, 1)]);
    assert_eq!(
        handlers(&bot.step(&said("hongbot: ping")).effects),
        vec![(Trigger::Respond, 3), (Trigger::Hear, 1)]
    );
}

#[test]
fn invalid_pattern_is_refused_and_changes_nothing() {
    let mut bot = bot("hongbot");
    bot.hear("ping", 1).unwrap();
    let refused = bot.hear("pi(ng", 2).unwrap_err();
    assert_eq!(refused.pattern, "pi(ng");
    let refused = bot.respond("pi(ng", 3).unwrap_err();
    assert_eq!(refused.pattern, "^hongbot:? +?pi(ng");
    assert_eq!(handlers(&bot.step(&said("hongbot: ping pi(ng")).effects), vec![(Trigger::Hear, 1)]);
}

#[test]
fn what_the_agent_is_told_it_gives_back() {
    let mut bot = bot("hongbot");
    let out = bot.step(&said("hongbot: color is blue"));
    assert!(!out.stop);
    assert!(out.effects.is_empty());
    assert_eq!(bot.get("color"), Some(&"blue".to_string()));

    let out = bot.step(&said("hongbot: color?"));
    assert!(!out.stop);
    assert_eq!(written(&out.effects), vec!["hongbot#shell> blue\n".to_string()]);
    assert!(written(&out.effects)[0].contains("blue"));

    let out = bot.step(&said("hongbot: shape?"));
    assert!(out.effects.is_empty());

    bot.step(&said("hongbot color is red"));
    let out = bot.step(&said("hongbot color?"));
    assert_eq!(written(&out.effects), vec!["hongbot#shell> red\n".to_string()]);

    let out = bot.step(&said("color?"));
    assert!(out.effects.is_empty());
    let out = bot.step(&said("otherbot: color?"));
    assert!(out.effects.is_empty());
}

#[test]
fn assignment_and_query_in_one_message() {
    let mut bot = bot("hongbot");
    let out = bot.step(&said("hongbot: what is up?"));
    assert!(out.effects.is_empty());
    assert_eq!(bot.get("what"), Some(&"up?".to_string()));
    bot.set("what is up", "the sky");
    let out = bot.step(&said("hongbot: what is up?"));
    assert_eq!(written(&out.effects), vec!["hongbot#shell> the sky\n".to_string()]);
}

#[test]
fn set_and_get_keep_one_value_for_each_key() {
    let mut bot = bot("hongbot");
    assert_eq!(bot.get("a"), None);
    bot.set("a", "1");
    bot.set("b", "2");
    bot.set("a", "3");
    assert_eq!(bot.get("a"), Some(&"3".to_string()));
    assert_eq!(bot.get("b"), Some(&"2".to_string()));
    assert_eq!(bot.get("c"), None);
    assert_eq!(bot.get(""), None);
}

#[test]
fn shutdown_phrase_stops_the_agent_in_any_letter_case() {
    for phrase in ["hongbot: exit", "HongBot: EXIT", "HONGBOT: Exit", "  hongbot: eXiT \n"] {
        let mut bot = bot("hongbot");
        bot.respond("exit", 9).unwrap();
        bot.hear("exit", 8).unwrap();
        bot.connect().unwrap();
        assert!(bot.server().is_connected());
        bot.set("color", "blue");

        let out = bot.step(&said(phrase));
        assert!(out.stop);
        assert_eq!(out.effects.len(), 3);
        assert!(matches!(&out.effects[0], Effect::Write(bytes) if bytes == "hongbot#shell> bye\n"));
        assert!(matches!(&out.effects[1], Effect::Disconnect));
        assert!(matches!(&out.effects[2], Effect::Persist));
        assert!(!bot.server().is_connected());
        assert_eq!(bot.connect(), Err(SessionError::Closed));
        assert_eq!(bot.get("color"), Some(&"blue".to_string()));

        let snapshot = bot.snapshot().unwrap();
        let again = Bot::new(shell_config("hongbot"), &snapshot).unwrap();
        assert_eq!(again.get("color"), Some(&"blue".to_string()));
    }
}

#[test]
fn every_shutdown_word_stops_the_agent() {
    for phrase in ["hongbot: shutdown", "hongbot quit", "hongbot exit", "hongbot: QUIT"] {
        let mut bot = bot("hongbot");
        assert!(bot.step(&said(phrase)).stop);
    }
    for phrase in ["exit", "hongbot:exit", "hongbot: exit now", "otherbot: exit", "hongbot: exits"] {
        let mut bot = bot("hongbot");
        assert!(!bot.step(&said(phrase)).stop);
    }
}

#[test]
fn name_with_capitals_is_never_told_to_shut_down() {
    let mut bot = bot("HongBot");
    assert!(!bot.step(&said("HongBot: exit")).stop);
    assert!(!bot.step(&said("hongbot: exit")).stop);
}

#[test]
fn shutdown_without_a_message_says_no_farewell() {
    let mut bot = bot("hongbot");
    bot.connect().unwrap();
    let effects = bot.shutdown(None);
    assert_eq!(effects.len(), 2);
    assert!(matches!(&effects[0], Effect::Disconnect));
    assert!(matches!(&effects[1], Effect::Persist));
    assert!(!bot.server().is_connected());

    let mut bot = Bot::new(irc_config("hongbot"), &[]).unwrap();
    let effects = bot.shutdown(Some(&said("hongbot: exit")));
    assert_eq!(effects.len(), 2);
    assert!(matches!(&effects[0], Effect::Disconnect));

    let mut bot = Bot::new(irc_config("hongbot"), &[]).unwrap();
    bot.connect().unwrap();
    let effects = bot.shutdown(Some(&said("hongbot: exit")));
    assert_eq!(effects.len(), 3);
    assert!(matches!(&effects[0], Effect::Write(bytes) if bytes == "PRIVMSG #shell bye\r\n"));
}

#[test]
fn run_reads_up_to_the_first_shutdown() {
    let mut bot = bot("hongbot");
    bot.hear("ping", 1).unwrap();
    let inbox = vec![
        said("ping"),
        said("hongbot: color is blue"),
        said("hongbot: color?"),
        said("hongbot: quit"),
        said("ping"),
        said("hongbot: color is red"),
    ];
    let out = bot.run(&inbox);
    assert!(out.stop);
    assert_eq!(out.effects.len(), 5);
    assert!(matches!(&out.effects[0], Effect::Invoke { handler: 1, .. }));
    assert!(matches!(&out.effects[1], Effect::Write(bytes) if bytes == "hongbot#shell> blue\n"));
    assert!(matches!(&out.effects[2], Effect::Write(bytes) if bytes == "hongbot#shell> bye\n"));
    assert!(matches!(&out.effects[3], Effect::Disconnect));
    assert!(matches!(&out.effects[4], Effect::Persist));
    assert_eq!(bot.get("color"), Some(&"blue".to_string()));

    let mut bot = bot_with_ping();
    let out = bot.run(&vec![said("ping"), said("ping")]);
    assert!(!out.stop);
    assert_eq!(handlers(&out.effects), vec![(Trigger::Hear, 1), (Trigger::Hear, 1)]);
    let out = bot.run(&vec![]);
    assert!(!out.stop);
    assert!(out.effects.is_empty());
}

fn bot_with_ping() -> Bot {
    let mut bot = bot("hongbot");
    bot.hear("ping", 1).unwrap();
    bot
}

#[test]
fn send_and_reply_go_through_the_session() {
    let bot = bot("hongbot");
    assert_eq!(bot.send("#shell", "hello"), Some("hongbot#shell> hello\n".to_string()));
    assert_eq!(bot.reply("#shell", "you", "pong"), Some("hongbot#shell> you: pong\n".to_string()));

    let mut bot = Bot::new(irc_config("hongbot"), &[]).unwrap();
    assert!(matches!(bot.server(), Session::Irc(_)));
    assert_eq!(bot.send("#bots", "hello"), None);
    bot.connect().unwrap();
    assert_eq!(bot.send("#bots", "hello"), Some("PRIVMSG #bots hello\r\n".to_string()));
    assert_eq!(
        bot.reply("#bots", "aanoaa", "pong"),
        Some("PRIVMSG #bots aanoaa: pong\r\n".to_string())
    );
}

#[test]
fn agent_is_not_made_without_what_it_needs() {
    let missing = Config { name: "hongbot".to_string(), server: ServerType::Irc, scripts: vec![], irc: None };
    assert_eq!(Bot::new(missing, &[]).unwrap_err(), BotError::MissingConfig);
    assert_eq!(Bot::new(shell_config("hong(bot"), &[]).unwrap_err(), BotError::InvalidName);
    let both = Config { name: "hong(bot".to_string(), server: ServerType::Irc, scripts: vec![], irc: None };
    assert_eq!(Bot::new(both, &[]).unwrap_err(), BotError::MissingConfig);
    assert!(matches!(Bot::new(shell_config("hongbot"), &[]).unwrap().server(), Session::Shell(_)));
}

#[test]
fn built_in_actions_are_installed_for_the_addressed_agent() {
    let mut bot = bot("hongbot");
    bot.install_actions().unwrap();
    assert_eq!(handlers(&bot.step(&said("hongbot: ping")).effects), vec![(Trigger::Respond, PING)]);
    assert_eq!(
        handlers(&bot.step(&said("hongbot ipaddr")).effects),
        vec![(Trigger::Respond, IFCONFIG)]
    );
    assert_eq!(handlers(&bot.step(&said("ping")).effects), vec![]);

    assert_eq!(
        Action::ping(&bot, "#shell".to_string(), "you".to_string(), "hongbot: ping".to_string(), vec![]),
        Some("hongbot#shell> you: pong\n".to_string())
    );
    let later = Action::ping_delayed(
        &bot,
        "#shell".to_string(),
        "you".to_string(),
        "hongbot: ping".to_string(),
        vec![],
    );
    assert_eq!(later.millis, PING_DELAY);
    assert_eq!(later.millis, 1000);
    assert_eq!(later.channel, "#shell");
    assert_eq!(later.message, "pong");
}

#[test]
fn snapshot_is_read_back_as_the_same_store() {
    let mut store = StateStore::new();
    store.set("color", "blue");
    store.set("shape", "round");
    store.set("color", "green");
    store.set("", "");
    store.set("키", "값");
    let bytes = store.dump().unwrap();
    assert_ne!(bytes, b"color".to_vec());
    let again = StateStore::load(&bytes);
    assert_eq!(again.get("color"), Some(&"green".to_string()));
    assert_eq!(again.get("shape"), Some(&"round".to_string()));
    assert_eq!(again.get(""), Some(&"".to_string()));
    assert_eq!(again.get("키"), Some(&"값".to_string()));
    assert_eq!(again.get("size"), None);
    assert_eq!(again.dump().unwrap(), bytes);
}

#[test]
fn snapshot_has_the_layout_of_a_map_of_strings() {
    let mut store = StateStore::new();
    store.set("k", "vw");
    let mut expected = Vec::new();
    expected.extend_from_slice(&1u64.to_le_bytes());
    expected.extend_from_slice(&1u64.to_le_bytes());
    expected.extend_from_slice(b"k");
    expected.extend_from_slice(&2u64.to_le_bytes());
    expected.extend_from_slice(b"vw");
    assert_eq!(store.dump().unwrap(), expected);

    let mut map: HashMap<String, String> = HashMap::new();
    map.insert("color".to_string(), "blue".to_string());
    map.insert("shape".to_string(), "round".to_string());
    let bytes = bincode::serialize(&map).unwrap();
    let store = StateStore::load(&bytes);
    assert_eq!(store.get("color"), Some(&"blue".to_string()));
    assert_eq!(store.get("shape"), Some(&"round".to_string()));
    let back: HashMap<String, String> = bincode::deserialize(&store.dump().unwrap()).unwrap();
    assert_eq!(back, map);
}

#[test]
fn snapshot_that_cannot_be_read_gives_an_empty_store() {
    assert_eq!(StateStore::load(&[]).get("color"), None);
    assert_eq!(StateStore::load(&[1, 2, 3]).get("color"), None);
    assert_eq!(StateStore::load(&[0xff; 16]).get("color"), None);
    let empty = StateStore::new().dump().unwrap();
    assert_eq!(empty, 0u64.to_le_bytes().to_vec());
    assert_eq!(StateStore::load(&empty).get("color"), None);
    let bot = Bot::new(shell_config("hongbot"), &[9, 9, 9]).unwrap();
    assert_eq!(bot.get("color"), None);
}

#[test]
fn snapshot_with_a_key_twice_keeps_the_later_value() {
    let pairs = vec![
        ("a".to_string(), "1".to_string()),
        ("b".to_string(), "2".to_string()),
        ("a".to_string(), "3".to_string()),
    ];
    let bytes = bincode::serialize(&pairs).unwrap();
    let store = StateStore::load(&bytes);
    assert_eq!(store.get("a"), Some(&"3".to_string()));
    assert_eq!(store.get("b"), Some(&"2".to_string()));
}

#[test]
fn health_endpoint_answers_the_index_only() {
    assert_eq!(status(true, "/"), 200);
    assert_eq!(status(true, "/health"), 404);
    assert_eq!(status(true, ""), 404);
    assert_eq!(status(false, "/"), 405);
    assert_eq!(status(false, "/health"), 405);
}
