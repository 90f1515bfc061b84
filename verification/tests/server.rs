use hongbot_rs::server::echo::Echo;
use hongbot_rs::server::shell::Shell;
use hongbot_rs::server::{Server, SessionError};

#[test]
fn shell_prompt_is_as_wide_as_the_longer_name() {
    let shell = Shell::new("hongbot".to_string());
    assert_eq!(shell.prompt(), "    you#shell> ");
    assert_eq!(shell.send("#shell", "pong"), Some("hongbot#shell> pong\n".to_string()));

    let shell = Shell::new("al".to_string());
    assert_eq!(shell.prompt(), "you#shell> ");
    assert_eq!(shell.send("#shell", "pong"), Some(" al#shell> pong\n".to_string()));

    let shell = Shell::new("".to_string());
    assert_eq!(shell.send("#c", ""), Some("   #c> \n".to_string()));
}

#[test]
fn shell_width_counts_bytes_and_pads_characters() {
    let shell = Shell::new("홍봇".to_string());
    assert_eq!(shell.prompt(), "   you#shell> ");
    assert_eq!(shell.send("#shell", "x"), Some("    홍봇#shell> x\n".to_string()));
}

#[test]
fn shell_lines_come_from_you_on_the_shell_channel() {
    let msg = Shell::receive("hongbot: ping\n".to_string());
    assert_eq!(msg.channel, "#shell");
    assert_eq!(msg.nick, "you");
    assert_eq!(msg.message, "hongbot: ping\n");
    assert_eq!(msg.trim(), "hongbot: ping");
}

#[test]
fn shell_is_opened_once_and_closed_once() {
    let mut shell = Shell::new("hongbot".to_string());
    assert!(!shell.is_connected());
    assert_eq!(shell.connect(), Ok(()));
    assert!(shell.is_connected());
    assert_eq!(shell.connect(), Err(SessionError::AlreadyConnected));
    shell.disconnect();
    assert!(!shell.is_connected());
    assert_eq!(shell.connect(), Err(SessionError::Closed));
    assert!(!shell.is_connected());
}

#[test]
fn echo_defaults_to_port_8080() {
    assert_eq!(Echo::new(None).endpoint_port(), 8080);
    assert_eq!(Echo::new(Some(9000)).endpoint_port(), 9000);
    assert_eq!(Echo::default().endpoint_port(), 8080);
    assert_eq!(Echo::new(None).address(), "127.0.0.1:8080");
    assert_eq!(Echo::new(Some(0)).address(), "127.0.0.1:0");
    assert_eq!(Echo::new(Some(65535)).address(), "127.0.0.1:65535");
    assert_eq!(Echo::new(Some(-12)).address(), "127.0.0.1:-12");
    assert_eq!(Echo::new(Some(i32::MIN)).address(), "127.0.0.1:-2147483648");
    assert_eq!(Echo::new(Some(i32::MAX)).address(), "127.0.0.1:2147483647");
}

#[test]
fn echo_trims_what_is_typed_and_writes_nothing() {
    let mut echo = Echo::new(None);
    assert_eq!(Echo::prompt(), "    you#echo> ");
    let msg = Echo::receive("  hello world \r\n");
    assert_eq!(msg.channel, "echo");
    assert_eq!(msg.nick, "you");
    assert_eq!(msg.message, "hello world");
    assert_eq!(echo.send("echo", "hello"), None);
    assert_eq!(echo.connect(), Ok(()));
    assert!(echo.is_connected());
    assert_eq!(echo.send("echo", "hello"), None);
    echo.disconnect();
    assert!(!echo.is_connected());
    assert_eq!(echo.connect(), Err(SessionError::Closed));
}
