use much::command::Command;
use much::connection::Connection;
use much::session::{
    login_greeting, login_step, AbortReason, LoginEvent, LoginOutcome, LoginState,
};
use much::state::State;

fn tcp(addr: &str) -> Connection {
    Connection::TCP { addr: addr.to_string() }
}

fn line(s: &str) -> LoginEvent {
    LoginEvent::Line(s.to_string())
}

fn expect_next(outcome: LoginOutcome) -> (LoginState, Vec<String>) {
    match outcome {
        LoginOutcome::Next { state, output } => (state, output),
        _ => panic!("expected the handshake to continue"),
    }
}

#[test]
fn greeting_asks_for_an_identifier() {
    let out = login_greeting();
    assert_eq!(out, vec!["What is your email address or Twitter handle? ".to_string()]);
}

#[test]
fn invalid_identifier_reprompts() {
    let mut state = State::new();
    let (st, out) = expect_next(login_step(
        &mut state,
        LoginState::AwaitingIdentifier,
        tcp("peer"),
        line("no-at-sign"),
    ));
    assert!(matches!(st, LoginState::AwaitingIdentifier));
    assert_eq!(
        out,
        vec![
            "Please enter a valid email address or Twitter handle.".to_string(),
            "What is your email address or Twitter handle? ".to_string(),
        ]
    );
}

#[test]
fn empty_identifier_reprompts() {
    let mut state = State::new();
    let (st, _out) = expect_next(login_step(
        &mut state,
        LoginState::AwaitingIdentifier,
        tcp("peer"),
        line("   "),
    ));
    assert!(matches!(st, LoginState::AwaitingIdentifier));
}

#[test]
fn disconnect_aborts_with_reset() {
    let mut state = State::new();
    let outcome = login_step(
        &mut state,
        LoginState::AwaitingIdentifier,
        tcp("peer"),
        LoginEvent::Disconnected,
    );
    match outcome {
        LoginOutcome::Aborted { reason, output } => {
            assert!(matches!(reason, AbortReason::ConnectionReset));
            assert!(output.is_empty());
        },
        _ => panic!("expected an abort"),
    }
}

#[test]
fn successful_login_and_shutdown() {
    let mut state = State::new();
    state.new_person("@a", "aaaaaaaa").unwrap();
    state.new_person("@b", "bbbbbbbb").unwrap();
    state.new_person("@c", "cccccccc").unwrap();

    let (st, out) = expect_next(login_step(
        &mut state,
        LoginState::AwaitingIdentifier,
        tcp("peer"),
        line("@a"),
    ));
    assert_eq!(out, vec!["Password: ".to_string()]);
    let outcome = login_step(&mut state, st, tcp("peer"), line("aaaaaaaa"));
    let person = match outcome {
        LoginOutcome::LoggedIn { person, output } => {
            assert_eq!(out.len(), 1);
            assert_eq!(output, vec!["Logged in as @a...".to_string()]);
            person
        },
        _ => panic!("expected a login"),
    };
    assert_eq!(person.name, "@a");

    let cmd = Command::parse("shutdown".to_string()).unwrap();
    cmd.run(&mut state, &person);
    assert!(state.is_shutdown_requested());
}

#[test]
fn retry_cap_aborts_on_the_third_failure() {
    let mut state = State::new();
    state.new_person("@a", "aaaaaaaa").unwrap();

    let (st, _) = expect_next(login_step(
        &mut state,
        LoginState::AwaitingIdentifier,
        tcp("peer"),
        line("@a"),
    ));
    // First failure: reprompted, not aborted.
    let (st, out) = expect_next(login_step(&mut state, st, tcp("peer"), line("wrong-one")));
    assert_eq!(out, vec!["Password incorrect.".to_string(), "Password: ".to_string()]);
    // Second failure: reprompted, not aborted.
    let (st, out) = expect_next(login_step(&mut state, st, tcp("peer"), line("wrong-two")));
    assert_eq!(out, vec!["Password incorrect.".to_string(), "Password: ".to_string()]);
    // Third failure: aborted.
    let outcome = login_step(&mut state, st, tcp("peer"), line("wrong-three"));
    match outcome {
        LoginOutcome::Aborted { reason, .. } => {
            assert!(matches!(reason, AbortReason::TooManyPasswordAttempts));
        },
        _ => panic!("expected the third failure to abort"),
    }
}

#[test]
fn registration_flow() {
    let mut state = State::new();
    let (st, out) = expect_next(login_step(
        &mut state,
        LoginState::AwaitingIdentifier,
        tcp("peer"),
        line("@new"),
    ));
    assert_eq!(
        out,
        vec!["You must be new here!".to_string(), "Please enter a password: ".to_string()]
    );
    // Too short: reprompted.
    let (st, out) = expect_next(login_step(&mut state, st, tcp("peer"), line("short")));
    assert_eq!(
        out,
        vec![
            "That is not a valid password. It should be at least 8 characters.".to_string(),
            "Please enter a password: ".to_string(),
        ]
    );
    // Long enough: asked to confirm.
    let (st, out) = expect_next(login_step(&mut state, st, tcp("peer"), line("longenough")));
    assert_eq!(out, vec!["Please re-enter your password: ".to_string()]);
    // Mismatch: back to choosing a password.
    let (st, out) = expect_next(login_step(&mut state, st, tcp("peer"), line("different1")));
    assert_eq!(
        out,
        vec![
            "Passwords don't match.".to_string(),
            "You must be new here!".to_string(),
            "Please enter a password: ".to_string(),
        ]
    );
    // Again, this time matching.
    let (st, _) = expect_next(login_step(&mut state, st, tcp("peer"), line("longenough")));
    let outcome = login_step(&mut state, st, tcp("peer"), line("longenough"));
    match outcome {
        LoginOutcome::LoggedIn { person, output } => {
            assert_eq!(output, vec!["Logged in as @new...".to_string()]);
            assert_eq!(person.name, "@new");
        },
        _ => panic!("expected registration to log in"),
    }
    let rec = state.person_by_name("@new").expect("registered");
    assert!(rec.authenticate("longenough"));
    assert!(!rec.authenticate("different1"));
}

#[test]
fn registering_a_taken_name_restarts() {
    let mut state = State::new();
    state.new_person("@a", "aaaaaaaa").unwrap();
    // The registering client somehow reached the confirm step for a name
    // that is registered by now: the race loser is told and restarted.
    let st = LoginState::AwaitingPasswordConfirm {
        name: "@a".to_string(),
        password: "bbbbbbbb".to_string(),
    };
    let (st, out) = expect_next(login_step(&mut state, st, tcp("peer"), line("bbbbbbbb")));
    assert!(matches!(st, LoginState::AwaitingIdentifier));
    assert_eq!(
        out,
        vec![
            "That name is already taken.".to_string(),
            "What is your email address or Twitter handle? ".to_string(),
        ]
    );
}

#[test]
fn passwords_are_trimmed_like_other_input() {
    let mut state = State::new();
    state.new_person("@a", "aaaaaaaa").unwrap();
    let (st, _) = expect_next(login_step(
        &mut state,
        LoginState::AwaitingIdentifier,
        tcp("peer"),
        line("  @a  "),
    ));
    let outcome = login_step(&mut state, st, tcp("peer"), line("  aaaaaaaa  "));
    assert!(matches!(outcome, LoginOutcome::LoggedIn { .. }));
}
