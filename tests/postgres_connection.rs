use formdb_debugger::postgres::{ConnectionPool, PostgresConnection, PostgresError};

#[test]
fn test_connection_new() {
    let conn = PostgresConnection::new("postgres://localhost/testdb");
    assert!(conn.is_ok());
    let conn = conn.unwrap_or_else(|_| panic!("connection"));
    assert!(!conn.is_connected());
    assert_eq!(conn.database_name(), "testdb");
}

#[test]
fn test_connection_parse_error() {
    // Invalid connection string should fail
    let _conn = PostgresConnection::new("not a valid connection string");
    // tokio-postgres is lenient, so this may or may not fail
    // depending on version
}

#[test]
fn connection_defaults_database_name() {
    let conn = PostgresConnection::new("host=localhost user=admin").unwrap_or_else(|_| panic!("connection"));
    assert_eq!(conn.database_name(), "postgres");
    match conn.client() {
        Err(PostgresError::ConnectionFailed(m)) => assert_eq!(m, "Not connected"),
        _ => panic!("not connected expected"),
    }
}

#[test]
fn connection_rejects_bad_port() {
    let r = PostgresConnection::new("host=localhost port=notaport");
    assert!(matches!(r, Err(PostgresError::ConfigError(_))));
}

#[test]
fn pool_builds_unconnected_connections() {
    let pool = ConnectionPool::new("postgres://localhost/app", 3).unwrap_or_else(|_| panic!("pool"));
    assert_eq!(pool.connections.len(), 3);
    assert!(pool.connections.iter().all(|c| !c.is_connected() && c.database_name() == "app"));
    assert!(pool.connections.iter().all(|c| c.connection_string == "postgres://localhost/app"));
    assert!(ConnectionPool::new("host=localhost port=notaport", 2).is_err());
    assert!(ConnectionPool::new("host=localhost port=notaport", 0).is_ok());
}
