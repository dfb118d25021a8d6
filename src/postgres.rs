//! PostgreSQL connection handles, schema descriptions and adapter errors.
use vstd::prelude::*;
use crate::constraints::ConstraintType;

verus! {

/// Errors that can occur when interacting with PostgreSQL.
#[derive(Clone, Debug, PartialEq, Eq)]
pub enum PostgresError {
    ConnectionFailed(String),
    QueryFailed(String),
    SchemaError(String),
    WalError(String),
    ConfigError(String),
}

/// A PostgreSQL table definition.
pub struct PgTable {
    pub schema: String,
    pub name: String,
    pub columns: Vec<PgColumn>,
    pub primary_key: Option<Vec<String>>,
}

/// A PostgreSQL column definition.
pub struct PgColumn {
    pub name: String,
    pub data_type: String,
    pub nullable: bool,
    pub default_value: Option<String>,
}

/// A PostgreSQL constraint.
pub struct PgConstraint {
    pub name: String,
    pub constraint_type: ConstraintType,
    pub table: String,
    pub columns: Vec<String>,
    pub foreign_table: Option<String>,
    pub foreign_columns: Option<Vec<String>>,
}

#[verifier::external_type_specification]
#[verifier::external_body]
pub struct ExClient(tokio_postgres::Client);

/// What parsing a connection string gives: the database name it names, if
/// any, or the parser's error message.
pub uninterp spec fn connection_dbname(s: Seq<char>) -> Result<Option<Seq<char>>, Seq<char>>;

/// Relies on tokio_postgres's `FromStr for Config` to parse the connection
/// string, and on `Config::get_dbname` for the database name it holds; the
/// parse error is rendered with `to_string`.
#[verifier::external_body]
fn parse_dbname(s: &str) -> (r: Result<Option<String>, String>)
    ensures
        match r {
            Ok(Some(d)) => connection_dbname(s@) == Ok::<Option<Seq<char>>, Seq<char>>(Some(d@)),
            Ok(None) => connection_dbname(s@) == Ok::<Option<Seq<char>>, Seq<char>>(None),
            Err(m) => connection_dbname(s@) == Err::<Option<Seq<char>>, Seq<char>>(m@),
        },
{
    s.parse::<tokio_postgres::Config>().map(|c| c.get_dbname().map(|d| d.to_string())).map_err(
        |e| e.to_string(),
    )
}

/// The database name used when the connection string names none.
pub open spec fn default_dbname() -> Seq<char> {
    seq!['p', 'o', 's', 't', 'g', 'r', 'e', 's']
}

/// A PostgreSQL connection: its connection string, the database it names,
/// and the client once connected.
pub struct PostgresConnection {
    pub connection_string: String,
    pub client: Option<tokio_postgres::Client>,
    pub database_name: String,
}

impl PostgresConnection {
    /// A connection, not yet connected, for `connection_string`; fails with
    /// `ConfigError` when the string does not parse.
    pub fn new(connection_string: &str) -> (r: Result<Self, PostgresError>)
        ensures
            match connection_dbname(connection_string@) {
                Ok(d) => r matches Ok(c) && c.connection_string@ == connection_string@
                    && c.client is None && c.database_name@ == match d {
                    Some(name) => name,
                    None => default_dbname(),
                },
                Err(m) => r matches Err(PostgresError::ConfigError(e)) && e@ == m,
            },
    {
        match parse_dbname(connection_string) {
            Err(m) => Err(PostgresError::ConfigError(m)),
            Ok(d) => {
                let database_name = match d {
                    Some(name) => name,
                    None => {
                        let n = String::from_str("postgres");
                        proof {
                            reveal_strlit("postgres");
                        }
                        assert(n@ =~= default_dbname());
                        n
                    },
                };
                Ok(
                    PostgresConnection {
                        connection_string: String::from_str(connection_string),
                        client: None,
                        database_name,
                    },
                )
            },
        }
    }

    /// Installs the client of an established connection.
    pub fn attach(&mut self, client: tokio_postgres::Client)
        ensures
            final(self).client == Some(client),
            final(self).connection_string == old(self).connection_string,
            final(self).database_name == old(self).database_name,
    {
        self.client = Some(client);
    }

    /// Drops the client.
    pub fn disconnect(&mut self)
        ensures
            final(self).client is None,
            final(self).connection_string == old(self).connection_string,
            final(self).database_name == old(self).database_name,
    {
        self.client = None;
    }

    /// Whether a client is attached.
    pub fn is_connected(&self) -> (r: bool)
        ensures
            r == self.client is Some,
    {
        self.client.is_some()
    }

    /// The database name.
    pub fn database_name(&self) -> (r: &str)
        ensures
            r@ == self.database_name@,
    {
        self.database_name.as_str()
    }

    /// The attached client, or `ConnectionFailed` when not connected.
    pub fn client(&self) -> (r: Result<&tokio_postgres::Client, PostgresError>)
        ensures
            self.client is Some <==> r is Ok,
            r is Ok ==> Some(*r->Ok_0) == self.client,
            r is Err ==> (r->Err_0 matches PostgresError::ConnectionFailed(m) && m@ == "Not connected"@),
    {
        match &self.client {
            Some(c) => Ok(c),
            None => Err(PostgresError::ConnectionFailed(String::from_str("Not connected"))),
        }
    }
}

/// A fixed set of connections to one database.
pub struct ConnectionPool {
    pub connection_string: String,
    pub connections: Vec<PostgresConnection>,
}

impl ConnectionPool {
    /// `pool_size` unconnected connections for `connection_string`; fails
    /// as `PostgresConnection::new` does, whenever the pool is not empty.
    pub fn new(connection_string: &str, pool_size: usize) -> (r: Result<Self, PostgresError>)
        ensures
            match connection_dbname(connection_string@) {
                Ok(d) => r matches Ok(p) && p.connections@.len() == pool_size
                    && p.connection_string@ == connection_string@ && forall|i: int|
                    0 <= i < pool_size ==> {
                        let c = #[trigger] p.connections@[i];
                        &&& c.client is None
                        &&& c.connection_string@ == connection_string@
                        &&& c.database_name@ == match d {
                            Some(name) => name,
                            None => default_dbname(),
                        }
                    },
                Err(m) => if pool_size == 0 {
                    r matches Ok(p) && p.connections@.len() == 0
                } else {
                    r matches Err(PostgresError::ConfigError(e)) && e@ == m
                },
            },
    {
        let mut connections: Vec<PostgresConnection> = Vec::new();
        let mut i: usize = 0;
        while i < pool_size
            invariant
                i <= pool_size,
                connections@.len() == i,
                i > 0 ==> connection_dbname(connection_string@) is Ok,
                forall|j: int|
                    0 <= j < i ==> {
                        let c = #[trigger] connections@[j];
                        &&& c.client is None
                        &&& c.connection_string@ == connection_string@
                        &&& c.database_name@ == match connection_dbname(connection_string@) {
                            Ok(Some(name)) => name,
                            _ => default_dbname(),
                        }
                    },
            decreases pool_size - i,
        {
            match PostgresConnection::new(connection_string) {
                Ok(c) => connections.push(c),
                Err(e) => {
                    return Err(e);
                },
            }
            i = i + 1;
        }
        Ok(ConnectionPool { connection_string: String::from_str(connection_string), connections })
    }
}

} // verus!
