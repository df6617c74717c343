use scada_core::routing::{destinations, Destination, MsgKind, Source};
use scada_core::schemas::UserRead;
use scada_core::setup::{address_input_ok, port_from_input, read_answer, user_summary, user_write_error, Answer, UserWriteError};

#[test]
fn port_input() {
    assert_eq!(port_from_input("3306"), Some(3306));
    assert_eq!(port_from_input("0"), Some(0));
    assert_eq!(port_from_input("65535"), Some(65535));
    assert_eq!(port_from_input("65536"), None);
    assert_eq!(port_from_input("-1"), None);
    assert_eq!(port_from_input("+80"), Some(80));
    assert_eq!(port_from_input("80a"), None);
    assert_eq!(port_from_input(""), None);
}

#[test]
fn address_and_answers() {
    assert!(address_input_ok("127.0.0.1"));
    assert!(!address_input_ok("localhost"));
    assert_eq!(read_answer("y"), Answer::Yes);
    assert_eq!(read_answer("Y"), Answer::Yes);
    assert_eq!(read_answer("n"), Answer::No);
    assert_eq!(read_answer("N"), Answer::No);
    assert_eq!(read_answer("yes"), Answer::Other);
    assert_eq!(read_answer(""), Answer::Other);
}

#[test]
fn user_write_errors() {
    assert_eq!(user_write_error(Some("1062")), UserWriteError::NameTaken);
    assert_eq!(user_write_error(Some("1063")), UserWriteError::Database);
    assert_eq!(user_write_error(None), UserWriteError::Database);
    let u = UserRead { id: 3, username: "john".to_string(), password_hash: "p".to_string(), role_id: 4, is_active: true };
    let s = user_summary(&u);
    assert_eq!((s.id, s.name.as_str()), (3, "john"));
}

#[test]
fn controller_routes() {
    let r = |s, k| destinations(s, k);
    assert_eq!(r(Source::Api, MsgKind::Request), vec![Destination::Database]);
    assert_eq!(r(Source::Api, MsgKind::Command), vec![Destination::Database]);
    assert_eq!(r(Source::Api, MsgKind::Event), vec![]);
    assert_eq!(r(Source::Reader, MsgKind::Request), vec![Destination::Database]);
    assert_eq!(r(Source::Reader, MsgKind::Event), vec![Destination::Database, Destination::Api]);
    assert_eq!(r(Source::Reader, MsgKind::Command), vec![]);
    assert_eq!(r(Source::Database, MsgKind::ConfigEvent), vec![Destination::Reader]);
    assert_eq!(r(Source::Api, MsgKind::ConfigEvent), vec![]);
}
