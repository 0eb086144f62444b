//! The enablement store: a durable set of (chat id, module name) records in
//! one database table keyed by the pair. Supports list-all (for startup
//! rehydration), insert and remove, both idempotent. What any call returns
//! depends on the database file, so the wrappers promise nothing of the
//! contents; the callers in the dispatcher are verified for every outcome.

use vstd::prelude::*;

verus! {

#[verifier::external_type_specification]
#[verifier::external_body]
pub struct ExConnection(rusqlite::Connection);

#[verifier::external_type_specification]
#[verifier::external_body]
pub struct ExRusqliteError(rusqlite::Error);

/// Failure of the enablement store: an error of the underlying database.
#[derive(Debug)]
pub enum ModulesError {
    DBError(rusqlite::Error),
}

/// Handle on the durable enablement store.
pub struct Modules {
    conn: rusqlite::Connection,
}

impl Modules {
    /// Relies on rusqlite's `Connection::open` and `Connection::execute`:
    /// opens (or creates) the database at `path` and makes sure the records
    /// table exists, with its primary key on the (chat id, name) pair. Any
    /// database failure is returned, never raised.
    #[verifier::external_body]
    pub fn new(path: &str) -> (r: Result<Modules, ModulesError>) {
        let conn = match rusqlite::Connection::open(path) {
            Ok(c) => c,
            Err(e) => return Err(ModulesError::DBError(e)),
        };
        let made = conn.execute("CREATE TABLE IF NOT EXISTS modules (chat_id INTEGER, name TEXT, PRIMARY KEY(chat_id, name))", ());
        match made { Ok(_) => Ok(Modules { conn }), Err(e) => Err(ModulesError::DBError(e)) }
    }

    /// Relies on rusqlite's `prepare` and `query_map`: returns every stored
    /// (chat id, module name) record. The contents depend on the database
    /// file, so nothing is promised of them.
    #[verifier::external_body]
    pub fn modules(&mut self) -> (r: Result<Vec<(i64, String)>, ModulesError>) {
        let run = || -> Result<Vec<(i64, String)>, rusqlite::Error> {
            let mut q = self.conn.prepare("SELECT chat_id, name FROM modules")?;
            let rows = q.query_map((), |x| Ok((x.get(0)?, x.get(1)?)))?;
            rows.collect()
        };
        match run() { Ok(v) => Ok(v), Err(e) => Err(ModulesError::DBError(e)) }
    }

    /// Relies on rusqlite's `Connection::execute` with `INSERT OR IGNORE`:
    /// stores the (chat, name) record; inserting an already present record
    /// succeeds silently.
    #[verifier::external_body]
    pub fn add(&mut self, chat: i64, name: &str) -> (r: Result<(), ModulesError>) {
        let done = self.conn.execute("INSERT OR IGNORE INTO modules (chat_id, name) VALUES (?1, ?2)", (chat, name));
        match done { Ok(_) => Ok(()), Err(e) => Err(ModulesError::DBError(e)) }
    }

    /// Relies on rusqlite's `Connection::execute` with `DELETE`: removes the
    /// (chat, name) record; removing an absent record succeeds silently.
    #[verifier::external_body]
    pub fn rm(&mut self, chat: i64, name: &str) -> (r: Result<(), ModulesError>) {
        let done = self.conn.execute("DELETE FROM modules WHERE chat_id=?1 AND name=?2", (chat, name));
        match done { Ok(_) => Ok(()), Err(e) => Err(ModulesError::DBError(e)) }
    }
}

} // verus!
