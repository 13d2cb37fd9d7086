use much::command::Command;

#[test]
fn parse_shutdown() {
    let cmd = Command::parse("shutdown".to_string()).unwrap();
    assert!(matches!(cmd, Command::Shutdown));
}

#[test]
fn parse_logout() {
    let cmd = Command::parse("logout".to_string()).unwrap();
    assert!(matches!(cmd, Command::Logout));
}

#[test]
fn parse_trims_and_says() {
    let cmd = Command::parse("  hello there  ".to_string()).unwrap();
    match cmd {
        Command::Say { text } => assert_eq!(text, "hello there"),
        _ => panic!("expected a Say command"),
    }
}

#[test]
fn parse_empty_line_is_empty_say() {
    let cmd = Command::parse("".to_string()).unwrap();
    match cmd {
        Command::Say { text } => assert_eq!(text, ""),
        _ => panic!("expected a Say command"),
    }
}

#[test]
fn parse_trims_commands_too() {
    let cmd = Command::parse("  shutdown  ".to_string()).unwrap();
    assert!(matches!(cmd, Command::Shutdown));
}

#[test]
fn parse_command_like_text_is_say() {
    let cmd = Command::parse("shutdown now".to_string()).unwrap();
    match cmd {
        Command::Say { text } => assert_eq!(text, "shutdown now"),
        _ => panic!("expected a Say command"),
    }
}

#[test]
fn parse_whitespace_only_is_empty_say() {
    let cmd = Command::parse("   \t  ".to_string()).unwrap();
    match cmd {
        Command::Say { text } => assert_eq!(text, ""),
        _ => panic!("expected a Say command"),
    }
}

#[test]
fn tags() {
    assert_eq!(Command::Logout.tag(), "logout");
    assert_eq!(Command::Say { text: "hi".to_string() }.tag(), "say");
    assert_eq!(Command::Shutdown.tag(), "shutdown");
}
