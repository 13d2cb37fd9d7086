use much::message::Message;

#[test]
fn arrive_is_suppressed_for_self() {
    let m = Message::Arrive { id: 7, name: "@a".to_string(), loc: 0 };
    assert_eq!(m.render(7), "");
}

#[test]
fn arrive_names_the_arriver_for_others() {
    let m = Message::Arrive { id: 7, name: "@a".to_string(), loc: 0 };
    assert_eq!(m.render(8), "@a arrived.");
}

#[test]
fn depart_is_suppressed_for_self() {
    let m = Message::Depart { id: 7, name: "@a".to_string(), loc: 0 };
    assert_eq!(m.render(7), "");
}

#[test]
fn depart_names_the_departer_for_others() {
    let m = Message::Depart { id: 7, name: "@a".to_string(), loc: 0 };
    assert_eq!(m.render(8), "@a left.");
}

#[test]
fn logout_renders_fixed_text() {
    assert_eq!(Message::Logout.render(3), "You have logged out.");
}

#[test]
fn say_to_self_and_to_others() {
    let m = Message::Say {
        speaker: 1,
        speaker_name: "@a".to_string(),
        loc: 0,
        text: "hello".to_string(),
    };
    assert_eq!(m.render(1), "You say, 'hello'");
    assert_eq!(m.render(2), "@a says, 'hello'");
}

#[test]
fn say_keeps_the_text_verbatim() {
    let m = Message::Say {
        speaker: 1,
        speaker_name: "@a".to_string(),
        loc: 0,
        text: "it's  spaced".to_string(),
    };
    assert_eq!(m.render(2), "@a says, 'it's  spaced'");
}
