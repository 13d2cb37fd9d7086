use much::state::{RegisterError, State};

#[test]
fn register_then_authenticate() {
    let mut state = State::new();
    let rec = state.new_person("@a", "aaaaaaaa").unwrap();
    assert!(rec.authenticate("aaaaaaaa"));
}

#[test]
fn wrong_password_fails() {
    let mut state = State::new();
    let rec = state.new_person("@a", "aaaaaaaa").unwrap();
    assert!(!rec.authenticate("bbbbbbbb"));
    assert!(!rec.authenticate(""));
    assert!(!rec.authenticate("aaaaaaa"));
}

#[test]
fn verification_is_deterministic() {
    let mut state = State::new();
    let rec = state.new_person("@a", "aaaaaaaa").unwrap();
    let first = rec.authenticate("aaaaaaaa");
    let second = rec.authenticate("aaaaaaaa");
    assert_eq!(first, second);
    assert!(first);
}

#[test]
fn duplicate_name_is_rejected() {
    let mut state = State::new();
    state.new_person("@a", "aaaaaaaa").unwrap();
    let again = state.new_person("@a", "bbbbbbbb");
    assert!(matches!(again, Err(RegisterError::NameTaken)));
}

#[test]
fn ids_are_distinct_and_monotonic() {
    let mut state = State::new();
    let a = state.new_person("@a", "aaaaaaaa").unwrap();
    let b = state.new_person("@b", "bbbbbbbb").unwrap();
    let c = state.new_person("@c", "cccccccc").unwrap();
    assert_eq!(a.id, 0);
    assert_eq!(b.id, 1);
    assert_eq!(c.id, 2);
}

#[test]
fn lookup_by_name_finds_the_record() {
    let mut state = State::new();
    state.new_person("@a", "aaaaaaaa").unwrap();
    state.new_person("@b", "bbbbbbbb").unwrap();
    let b = state.person_by_name("@b").expect("registered name");
    assert_eq!(b.id, 1);
    assert_eq!(b.name, "@b");
    let none = state.person_by_name("@c");
    assert!(none.is_none());
}

#[test]
fn salts_are_base64_of_four_bytes() {
    let mut state = State::new();
    let a = state.new_person("@a", "aaaaaaaa").unwrap();
    assert_eq!(a.salt.len(), 8);
}

#[test]
fn two_registrations_differ_in_salt_or_hash() {
    let mut state = State::new();
    let a = state.new_person("@a", "aaaaaaaa").unwrap();
    let b = state.new_person("@b", "aaaaaaaa").unwrap();
    // Same password, but each record verifies it independently.
    assert!(a.authenticate("aaaaaaaa"));
    assert!(b.authenticate("aaaaaaaa"));
}
