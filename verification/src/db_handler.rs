//! The decisions behind bringing up the relational store.
//!
//! Connecting, running migrations and holding the pool are the store's own
//! business, outside the library.  What is decided here: the connection
//! string the pool is opened with, and the retry policy of the start-up
//! loop.

use vstd::prelude::*;

verus! {

/// How many times the start-up loop tries to connect before giving up.
pub const DB_CONNECT_ATTEMPTS: u32 = 5;

/// The connection string for the given store coordinates.
pub open spec fn spec_connection_string(
    user: Seq<char>,
    password: Seq<char>,
    host: Seq<char>,
    port: Seq<char>,
    db: Seq<char>,
) -> Seq<char> {
    "postgres://"@ + user + ":"@ + password + "@"@ + host + ":"@ + port + "/"@ + db
}

/// Renders the connection string for the given store coordinates.
pub fn connection_string(user: &str, password: &str, host: &str, port: &str, db: &str) -> (r:
    String)
    ensures
        r@ == spec_connection_string(user@, password@, host@, port@, db@),
{
    let mut s = String::from_str("postgres://");
    s.append(user);
    s.append(":");
    s.append(password);
    s.append("@");
    s.append(host);
    s.append(":");
    s.append(port);
    s.append("/");
    s.append(db);
    proof {
        assert(s@ =~= spec_connection_string(user@, password@, host@, port@, db@));
    }
    s
}

/// What the start-up loop does after one connection attempt.
#[derive(Clone, Copy, Debug, PartialEq, Eq, Structural)]
pub enum DbInitStep {
    /// The attempt failed and attempts remain: try again.
    Retry,
    /// The attempt succeeded: run the migrations and keep the pool.
    Migrate,
    /// Every attempt failed: report the last error and stop.
    GiveUp,
}

/// The start-up decision: connect success leads to migration; failure
/// retries until the attempt budget is spent.
pub open spec fn spec_db_connect_decision(attempts_done: u32, connected: bool) -> DbInitStep {
    if connected {
        DbInitStep::Migrate
    } else if attempts_done < DB_CONNECT_ATTEMPTS {
        DbInitStep::Retry
    } else {
        DbInitStep::GiveUp
    }
}

/// Decides what the start-up loop does after its `attempts_done`-th
/// connection attempt ended with the given outcome.
pub fn db_connect_decision(attempts_done: u32, connected: bool) -> (d: DbInitStep)
    ensures
        d == spec_db_connect_decision(attempts_done, connected),
{
    if connected {
        DbInitStep::Migrate
    } else if attempts_done < DB_CONNECT_ATTEMPTS {
        DbInitStep::Retry
    } else {
        DbInitStep::GiveUp
    }
}

} // verus!
