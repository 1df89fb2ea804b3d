use jumpseat::app::{AppState, Mode};
use jumpseat::models::Connection;
use jumpseat::ui::{dialog, position_text, row, Dialog, NAME_WIDTH};

fn connection(name: &str, port: Option<u16>, term: Option<&str>) -> Connection {
    Connection {
        name: name.to_string(),
        user: "root".to_string(),
        host: "host".to_string(),
        port,
        term: term.map(|t| t.to_string()),
    }
}

#[test]
fn no_dialog_by_default() {
    assert_eq!(dialog(&AppState::default()), Dialog::Hidden);
}

#[test]
fn one_dialog_at_a_time() {
    let mut app = AppState::default();
    app.show_help = true;
    assert_eq!(dialog(&app), Dialog::Help);
    app.pending_delete = true;
    assert_eq!(dialog(&app), Dialog::ConfirmDelete);
    app.mode = Mode::Add;
    assert_eq!(dialog(&app), Dialog::Add);
    app.pending_delete = false;
    app.show_help = false;
    assert_eq!(dialog(&app), Dialog::Add);
    app.mode = Mode::Search;
    assert_eq!(dialog(&app), Dialog::Hidden);
}

#[test]
fn a_row_shows_the_padded_name_and_the_address() {
    let r = row(&connection("prod-db", Some(22), Some("xterm")));
    assert_eq!(NAME_WIDTH, 20);
    assert_eq!(r.name, "prod-db             ");
    assert_eq!(r.user, "root");
    assert_eq!(r.address, "host:22");
    assert_eq!(r.term, Some("[xterm]".to_string()));
}

#[test]
fn a_row_without_port_and_terminal_type() {
    let r = row(&connection("a-name-of-more-than-twenty-characters", None, None));
    assert_eq!(r.name, "a-name-of-more-than-twenty-characters");
    assert_eq!(r.address, "host");
    assert_eq!(r.term, None);
}

#[test]
fn the_position_counts_from_one() {
    let mut app = AppState::default();
    assert_eq!(position_text(&app), "0/0");
    app.connections =
        vec![connection("a", None, None), connection("b", None, None), connection("c", None, None)];
    app.apply_filter();
    assert_eq!(position_text(&app), "1/3");
    app.selected = 2;
    assert_eq!(position_text(&app), "3/3");
    app.filtered_indices = vec![1];
    app.selected = 0;
    assert_eq!(position_text(&app), "1/1");
}
