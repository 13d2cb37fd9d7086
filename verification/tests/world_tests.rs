use much::connection::Connection;
use much::message::Message;
use much::person::Person;
use much::room::INITIAL_LOC;
use much::session::begin_session;
use much::state::State;

fn tcp(addr: &str) -> Connection {
    Connection::TCP { addr: addr.to_string() }
}

#[test]
fn fresh_world_is_empty() {
    let mut state = State::new();
    assert!(state.room(INITIAL_LOC).is_empty());
    assert!(state.next_message(0).is_none());
    assert!(!state.is_shutdown_requested());
}

#[test]
fn broadcast_reaches_every_open_queue_in_fifo_order() {
    let mut state = State::new();
    state.register_connection(0, tcp("peer-a"));
    state.register_connection(1, tcp("peer-b"));
    state.broadcast(Message::Say {
        speaker: 9,
        speaker_name: "@x".to_string(),
        loc: INITIAL_LOC,
        text: "one".to_string(),
    });
    state.broadcast(Message::Say {
        speaker: 9,
        speaker_name: "@x".to_string(),
        loc: INITIAL_LOC,
        text: "two".to_string(),
    });
    for id in [0u64, 1u64] {
        let first = state.next_message(id).expect("first message");
        let second = state.next_message(id).expect("second message");
        assert_eq!(first.render(7), "@x says, 'one'");
        assert_eq!(second.render(7), "@x says, 'two'");
        assert!(state.next_message(id).is_none());
    }
}

#[test]
fn roomcast_reaches_only_occupants() {
    let mut state = State::new();
    let a = state.new_person("@a", "aaaaaaaa").unwrap();
    let b = state.new_person("@b", "bbbbbbbb").unwrap();
    let _a_live = begin_session(&mut state, &a, tcp("peer-a"));
    let _b_live = begin_session(&mut state, &b, tcp("peer-b"));
    // A queue belonging to nobody in the room.
    state.register_connection(99, tcp("peer-z"));
    state.roomcast(
        INITIAL_LOC,
        Message::Say {
            speaker: a.id,
            speaker_name: "@a".to_string(),
            loc: INITIAL_LOC,
            text: "hi".to_string(),
        },
    );
    // Drain the arrival notices first.
    let mut last_for_b = None;
    while let Some(m) = state.next_message(b.id) {
        last_for_b = Some(m);
    }
    assert_eq!(last_for_b.expect("b heard something").render(b.id), "@a says, 'hi'");
    assert!(state.next_message(99).is_none());
}

#[test]
fn arrive_and_depart_maintain_membership() {
    let mut state = State::new();
    let rec = state.new_person("@a", "aaaaaaaa").unwrap();
    state.register_connection(rec.id, tcp("peer-a"));
    let mut live = Person::new(&rec, tcp("peer-a"));
    let loc = live.loc;
    state.arrive(&mut live, loc);
    assert_eq!(state.room(INITIAL_LOC).as_slice(), &[rec.id]);
    state.depart(&live);
    assert!(state.room(INITIAL_LOC).is_empty());
}

#[test]
fn moving_rooms_leaves_the_old_room() {
    let mut state = State::new();
    let rec = state.new_person("@a", "aaaaaaaa").unwrap();
    assert!(state.add_room(1));
    assert!(!state.add_room(1));
    let mut live = begin_session(&mut state, &rec, tcp("peer-a"));
    assert_eq!(state.room(INITIAL_LOC).as_slice(), &[rec.id]);
    state.arrive(&mut live, 1);
    assert!(state.room(INITIAL_LOC).is_empty());
    assert_eq!(state.room(1).as_slice(), &[rec.id]);
    assert_eq!(live.loc, 1);
}

#[test]
fn logout_closes_the_queue_and_leaves_a_terminal_message() {
    let mut state = State::new();
    let rec = state.new_person("@a", "aaaaaaaa").unwrap();
    let live = begin_session(&mut state, &rec, tcp("peer-a"));
    // Drain the own-arrival notice.
    let arrival = state.next_message(live.id).expect("arrival notice");
    assert_eq!(arrival.render(live.id), "");
    state.logout(&live);
    let last = state.next_message(live.id).expect("terminal message");
    assert_eq!(last.render(live.id), "You have logged out.");
    assert!(state.next_message(live.id).is_none());
    // A closed queue no longer receives fan-out.
    state.broadcast(Message::Logout);
    assert!(state.next_message(live.id).is_none());
    assert!(state.room(INITIAL_LOC).is_empty());
}

#[test]
fn unregister_removes_the_queue() {
    let mut state = State::new();
    state.register_connection(0, tcp("peer-a"));
    state.broadcast(Message::Logout);
    state.unregister_connection(0);
    assert!(state.next_message(0).is_none());
}

#[test]
fn reregistering_resets_the_queue() {
    let mut state = State::new();
    state.register_connection(0, tcp("peer-a"));
    state.broadcast(Message::Logout);
    state.register_connection(0, tcp("peer-b"));
    assert!(state.next_message(0).is_none());
}

#[test]
fn operations_on_a_missing_room_are_abandoned() {
    let mut state = State::new();
    let rec = state.new_person("@a", "aaaaaaaa").unwrap();
    state.register_connection(rec.id, tcp("peer-a"));
    // A session whose room id does not exist: the store abandons the
    // operation instead of crashing, and delivers nothing.
    let stray = Person { id: rec.id, name: rec.name.clone(), loc: 99, conn: tcp("peer-a") };
    state.depart(&stray);
    assert!(state.next_message(rec.id).is_none());
    state.roomcast(
        99,
        Message::Say {
            speaker: rec.id,
            speaker_name: "@a".to_string(),
            loc: 99,
            text: "lost".to_string(),
        },
    );
    assert!(state.next_message(rec.id).is_none());
}

#[test]
fn shutdown_sets_the_flag_only() {
    let mut state = State::new();
    state.register_connection(0, tcp("peer-a"));
    state.shutdown();
    assert!(state.is_shutdown_requested());
    assert!(state.next_message(0).is_none());
}
