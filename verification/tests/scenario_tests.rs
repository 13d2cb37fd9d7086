//! The end-to-end room scenario: speakers are heard by their room and
//! nobody else, and the speaker hears himself in the first person.

use much::command::Command;
use much::connection::Connection;
use much::message::Message;
use much::session::{login_step, LoginEvent, LoginOutcome, LoginState};
use much::state::State;

fn tcp(addr: &str) -> Connection {
    Connection::TCP { addr: addr.to_string() }
}

fn authenticate(state: &mut State, who: &str, password: &str, addr: &str) -> much::person::Person {
    let outcome = login_step(
        state,
        LoginState::AwaitingIdentifier,
        tcp(addr),
        LoginEvent::Line(who.to_string()),
    );
    let st = match outcome {
        LoginOutcome::Next { state, .. } => state,
        _ => panic!("expected the password prompt"),
    };
    match login_step(state, st, tcp(addr), LoginEvent::Line(password.to_string())) {
        LoginOutcome::LoggedIn { person, .. } => person,
        _ => panic!("expected a login"),
    }
}

fn drain(state: &mut State, id: u64) -> Vec<Message> {
    let mut all = Vec::new();
    while let Some(m) = state.next_message(id) {
        all.push(m);
    }
    all
}

#[test]
fn roomcast_end_to_end() {
    let mut state = State::new();
    state.new_person("@a", "aaaaaaaa").unwrap();
    state.new_person("@b", "bbbbbbbb").unwrap();
    state.new_person("@c", "cccccccc").unwrap();
    assert!(state.add_room(1));

    // Three clients authenticate; the third then moves to another room.
    let speaker = authenticate(&mut state, "@a", "aaaaaaaa", "peer-a");
    let listener = authenticate(&mut state, "@b", "bbbbbbbb", "peer-b");
    let mut elsewhere = authenticate(&mut state, "@c", "cccccccc", "peer-c");
    state.arrive(&mut elsewhere, 1);

    // Everyone starts with a clean slate of pending messages.
    drain(&mut state, speaker.id);
    drain(&mut state, listener.id);
    drain(&mut state, elsewhere.id);

    let cmd = Command::parse("hello".to_string()).unwrap();
    cmd.run(&mut state, &speaker);

    let heard_by_listener = drain(&mut state, listener.id);
    assert_eq!(heard_by_listener.len(), 1);
    assert_eq!(heard_by_listener[0].render(listener.id), "@a says, 'hello'");

    let heard_by_speaker = drain(&mut state, speaker.id);
    assert_eq!(heard_by_speaker.len(), 1);
    assert_eq!(heard_by_speaker[0].render(speaker.id), "You say, 'hello'");

    let heard_elsewhere = drain(&mut state, elsewhere.id);
    assert!(heard_elsewhere.is_empty());
}

#[test]
fn arrivals_are_announced_to_the_room() {
    let mut state = State::new();
    state.new_person("@a", "aaaaaaaa").unwrap();
    state.new_person("@b", "bbbbbbbb").unwrap();

    let first = authenticate(&mut state, "@a", "aaaaaaaa", "peer-a");
    let own_arrival = drain(&mut state, first.id);
    assert_eq!(own_arrival.len(), 1);
    // The own arrival renders as the empty string: self-suppressed.
    assert_eq!(own_arrival[0].render(first.id), "");

    let second = authenticate(&mut state, "@b", "bbbbbbbb", "peer-b");
    let seen_by_first = drain(&mut state, first.id);
    assert_eq!(seen_by_first.len(), 1);
    assert_eq!(seen_by_first[0].render(first.id), "@b arrived.");
    drain(&mut state, second.id);
}

#[test]
fn logout_command_is_announced_and_terminates() {
    let mut state = State::new();
    state.new_person("@a", "aaaaaaaa").unwrap();
    state.new_person("@b", "bbbbbbbb").unwrap();
    let leaver = authenticate(&mut state, "@a", "aaaaaaaa", "peer-a");
    let stayer = authenticate(&mut state, "@b", "bbbbbbbb", "peer-b");
    drain(&mut state, leaver.id);
    drain(&mut state, stayer.id);

    let cmd = Command::parse("logout".to_string()).unwrap();
    cmd.run(&mut state, &leaver);

    let for_leaver = drain(&mut state, leaver.id);
    assert_eq!(for_leaver.len(), 1);
    assert_eq!(for_leaver[0].render(leaver.id), "You have logged out.");

    let for_stayer = drain(&mut state, stayer.id);
    assert_eq!(for_stayer.len(), 1);
    assert_eq!(for_stayer[0].render(stayer.id), "@a left.");
}
