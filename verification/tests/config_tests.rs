use much::config::{Config, Verbosity};
use much::http_session::HTTPState;

#[test]
fn default_config() {
    let c = Config::default();
    assert!(c.timeout.is_none());
    assert_eq!(c.addr, "0.0.0.0");
    assert_eq!(c.tcp_port, "4000");
    assert_eq!(c.http_port, "4080");
    assert_eq!(c.verbosity, Verbosity::Info);
}

#[test]
fn bind_addresses_combine_interface_and_port() {
    let c = Config::default();
    assert_eq!(c.tcp_addr(), "0.0.0.0:4000");
    assert_eq!(c.http_addr(), "0.0.0.0:4080");
}

#[test]
fn session_tokens_map_to_identities() {
    let mut http = HTTPState::new();
    let s1 = http.gen_session_id_for(7);
    let s2 = http.gen_session_id_for(8);
    assert_eq!(s1.len(), 24);
    assert_eq!(s2.len(), 24);
    assert_eq!(http.person_for_session(&s1), Some(7));
    assert_eq!(http.person_for_session(&s2), Some(8));
    assert_eq!(http.person_for_session("missing"), None);
}

#[test]
fn csrf_tokens_are_replaced_per_session() {
    let mut http = HTTPState::new();
    let session = http.gen_session_id_for(7);
    let t1 = http.gen_csrf_token_for(session.clone());
    assert_eq!(t1.len(), 24);
    assert_eq!(http.token_for_session(&session), Some(t1.clone()));
    let t2 = http.gen_csrf_token_for(session.clone());
    assert_eq!(http.token_for_session(&session), Some(t2));
    assert_eq!(http.token_for_session("other"), None);
}
