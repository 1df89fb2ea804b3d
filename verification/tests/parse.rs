use jumpseat::config::{add_from_line, ParseError};
use jumpseat::models::Connection;

fn connection(name: &str, user: &str, host: &str, port: Option<u16>, term: Option<&str>) -> Connection {
    Connection {
        name: name.to_string(),
        user: user.to_string(),
        host: host.to_string(),
        port,
        term: term.map(|t| t.to_string()),
    }
}

fn same(a: &Connection, b: &Connection) -> bool {
    a.name == b.name && a.user == b.user && a.host == b.host && a.port == b.port && a.term == b.term
}

#[test]
fn parses_a_full_line() {
    let c = add_from_line("box alice@10.0.0.1:2200 xterm").unwrap();
    assert_eq!(c.name, "box");
    assert_eq!(c.user, "alice");
    assert_eq!(c.host, "10.0.0.1");
    assert_eq!(c.port, Some(2200));
    assert_eq!(c.term, Some("xterm".to_string()));
}

#[test]
fn a_single_token_is_rejected() {
    assert_eq!(add_from_line("onlyname").err(), Some(ParseError::MissingFields));
}

#[test]
fn an_empty_line_is_rejected() {
    assert_eq!(add_from_line("").err(), Some(ParseError::MissingFields));
    assert_eq!(add_from_line("   \t ").err(), Some(ParseError::MissingFields));
}

#[test]
fn a_second_token_without_at_is_rejected() {
    assert_eq!(add_from_line("box alice").err(), Some(ParseError::MissingAt));
    assert_eq!(add_from_line("box host:22 alice@host").err(), Some(ParseError::MissingAt));
}

#[test]
fn a_bad_port_is_rejected() {
    assert_eq!(add_from_line("box alice@host:99999").err(), Some(ParseError::InvalidPort));
    assert_eq!(add_from_line("box alice@host:65536").err(), Some(ParseError::InvalidPort));
    assert_eq!(add_from_line("box alice@host:").err(), Some(ParseError::InvalidPort));
    assert_eq!(add_from_line("box alice@host:ssh").err(), Some(ParseError::InvalidPort));
    assert_eq!(add_from_line("box alice@host:-1").err(), Some(ParseError::InvalidPort));
    assert_eq!(add_from_line("box alice@host:1:2").err(), Some(ParseError::InvalidPort));
}

#[test]
fn the_token_count_is_checked_before_the_port() {
    assert_eq!(add_from_line("alice@host:99999").err(), Some(ParseError::MissingFields));
}

#[test]
fn port_and_term_are_optional() {
    let c = add_from_line("web deploy@web1").unwrap();
    assert!(same(&c, &connection("web", "deploy", "web1", None, None)));
    let c = add_from_line("web deploy@web1:65535").unwrap();
    assert!(same(&c, &connection("web", "deploy", "web1", Some(65535), None)));
    let c = add_from_line("web deploy@web1 vt100").unwrap();
    assert!(same(&c, &connection("web", "deploy", "web1", None, Some("vt100"))));
}

#[test]
fn white_space_between_tokens_does_not_count() {
    let c = add_from_line("  box \t alice@host:+22   xterm  ignored more ").unwrap();
    assert!(same(&c, &connection("box", "alice", "host", Some(22), Some("xterm"))));
}

#[test]
fn the_first_at_and_the_first_colon_split() {
    let c = add_from_line("n a@b@c").unwrap();
    assert!(same(&c, &connection("n", "a", "b@c", None, None)));
    let c = add_from_line("n a:b@c:7").unwrap();
    assert!(same(&c, &connection("n", "a:b", "c", Some(7), None)));
    let c = add_from_line("n @").unwrap();
    assert!(same(&c, &connection("n", "", "", None, None)));
}

#[test]
fn messages_of_the_errors() {
    assert_eq!(
        ParseError::MissingFields.message(),
        "Add format: <name> <user>@<host>[:port] [term]"
    );
    assert_eq!(ParseError::MissingAt.message(), "must include user@host");
    assert_eq!(ParseError::InvalidPort.message(), "invalid port");
}

#[test]
fn label_shows_name_user_host_and_port() {
    assert_eq!(connection("alpha", "bob", "h1", Some(22), None).label(), "alpha  bob@h1:22");
    assert_eq!(connection("alpha", "bob", "h1", None, Some("xterm")).label(), "alpha  bob@h1");
    assert_eq!(connection("", "", "", Some(0), None).label(), "  @:0");
    assert_eq!(connection("世界", "é", "h", Some(65535), None).label(), "世界  é@h:65535");
}

#[test]
fn clone_copies_every_field() {
    let c = connection("box", "alice", "host", Some(22), Some("xterm"));
    assert!(same(&c.clone(), &c));
    let c = connection("box", "alice", "host", None, None);
    assert!(same(&c.clone(), &c));
}
