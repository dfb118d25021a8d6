use formdb_debugger::formdb::FormDBConnection;
use formdb_debugger::ui::{App, View};

#[test]
fn app_starts_on_home() {
    let app = App::new();
    assert!(app.running);
    assert_eq!(app.view, View::Home);
    assert!(!app.connected);
    assert_eq!(app.connection_string, None);
    assert_eq!(app.db_type, "formdb");
    assert_eq!(app.status_message, "Ready");
}

#[test]
fn app_keys_switch_views() {
    let mut app = App::new();
    app.on_key('s');
    assert_eq!(app.view, View::Schema);
    app.on_key('x');
    assert_eq!(app.view, View::Schema);
    app.on_key('t');
    assert_eq!(app.view, View::Timeline);
    app.on_key('d');
    assert_eq!(app.view, View::Diagnose);
    app.on_key('r');
    assert_eq!(app.view, View::Recover);
    app.on_key('?');
    assert_eq!(app.view, View::Help);
    app.on_key('h');
    assert_eq!(app.view, View::Home);
    assert!(app.running);
    app.on_key('q');
    assert!(!app.running);
}

#[test]
fn formdb_journal_path() {
    let conn = FormDBConnection::open("/var/db").unwrap_or_else(|_| panic!("open"));
    assert!(conn.is_opened());
    assert_eq!(conn.journal_path(), "/var/db/journal");
    let slash = FormDBConnection::open("/var/db/").unwrap_or_else(|_| panic!("open"));
    assert_eq!(slash.journal_path(), "/var/db/journal");
    let empty = FormDBConnection::open("").unwrap_or_else(|_| panic!("open"));
    assert_eq!(empty.journal_path(), "journal");
}

#[test]
fn app_default_matches_new() {
    let app = App::default();
    assert!(app.running);
    assert_eq!(app.view, View::Home);
    assert!(!app.connected);
    assert_eq!(app.connection_string, None);
    assert_eq!(app.db_type, "formdb");
    assert_eq!(app.status_message, "Ready");
}
