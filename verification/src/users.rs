//! User and score storage: user records keyed by user id, a score per
//! user, and the descending score leaderboard.

use vstd::prelude::*;

verus! {

/// Failure of the user store: an error of the underlying database.
#[derive(Debug)]
pub enum UsersError {
    DBError(rusqlite::Error),
}

/// One stored user record.
pub struct User {
    pub uid: i64,
    pub first_name: String,
    pub last_name: String,
    pub username: String,
}

/// Handle on the users database.
pub struct Users {
    db: rusqlite::Connection,
}

impl Users {
    /// Relies on rusqlite's `Connection::open` and `Connection::execute`:
    /// opens the database at `path` and makes sure the user and score
    /// tables and their unique id indexes exist.
    #[verifier::external_body]
    pub fn new(path: &str) -> (r: Result<Users, rusqlite::Error>) {
        let run = || -> Result<Users, rusqlite::Error> {
            let db = rusqlite::Connection::open(path)?;
            db.execute("CREATE TABLE IF NOT EXISTS users (uid INTEGER UNIQUE PRIMARY KEY, first_name TEXT, last_name TEXT, username TEXT)", ())?;
            db.execute("CREATE UNIQUE INDEX IF NOT EXISTS id_index ON users (uid)", ())?;
            db.execute("CREATE TABLE IF NOT EXISTS scores (uid INTEGER UNIQUE PRIMARY KEY, score INTEGER)", ())?;
            db.execute("CREATE UNIQUE INDEX IF NOT EXISTS id_index ON scores (uid)", ())?;
            Ok(Users { db })
        };
        run()
    }

    /// Relies on rusqlite's `prepare` and `query`: reads a user's rating
    /// row. What comes back depends on the database, so nothing is
    /// promised of the value.
    #[verifier::external_body]
    pub fn get_rating(&mut self, uid: i64) -> (r: Result<i64, UsersError>) {
        let run = || -> Result<i64, rusqlite::Error> {
            let mut st = self.db.prepare("SELECT rating FROM users WHERE user_id=?")?;
            let mut rows = st.query((uid,))?;
            match rows.next()? {
                Some(row) => Ok(row.get(0)?),
                None => Ok(0),
            }
        };
        match run() { Ok(v) => Ok(v), Err(e) => Err(UsersError::DBError(e)) }
    }

    /// Relies on rusqlite's `prepare` and `query_map` over a query with
    /// `ORDER BY score DESC LIMIT ?`: the leaderboard rows come back with
    /// scores in descending order, and no more rows than asked for.
    #[verifier::external_body]
    pub fn get_top(&mut self, count: i64) -> (r: Result<Vec<(User, i64)>, UsersError>)
        ensures
            r matches Ok(v) ==> {
                &&& forall|i: int, j: int|
                    0 <= i < j < v@.len() ==> (#[trigger] v@[i]).1 >= (#[trigger] v@[j]).1
                &&& count >= 0 ==> v@.len() <= count
            },
    {
        let run = || -> Result<Vec<(User, i64)>, rusqlite::Error> {
            let mut st = self.db.prepare("SELECT users.uid, users.first_name, users.last_name, users.username, score FROM scores JOIN users on users.uid = scores.uid ORDER BY score DESC LIMIT ?")?;
            let rows = st.query_map((count,), |row| Ok((User { uid: row.get(0)?, first_name: row.get(1)?, last_name: row.get(2)?, username: row.get(3)? }, row.get(4)?)))?;
            rows.collect()
        };
        match run() { Ok(v) => Ok(v), Err(e) => Err(UsersError::DBError(e)) }
    }

    /// Relies on rusqlite's `execute` with an upsert: stores or refreshes
    /// the user's record under its unique id.
    #[verifier::external_body]
    pub fn update_user(&mut self, user: &User) -> (r: Result<(), UsersError>) {
        let params = (user.uid, &user.first_name, &user.last_name, &user.username, &user.first_name, &user.last_name, &user.username);
        let done = self.db.execute("INSERT INTO users (uid, first_name, last_name, username) VALUES(?, ?, ?, ?) ON CONFLICT(uid) DO UPDATE SET first_name = ?, last_name = ?, username = ?", params);
        match done { Ok(_) => Ok(()), Err(e) => Err(UsersError::DBError(e)) }
    }

    /// Relies on rusqlite's `execute` with an upsert: adds `rating` to the
    /// user's score, starting from `rating` for a first entry.
    #[verifier::external_body]
    pub fn inc_rating(&mut self, uid: i64, rating: i64) -> (r: Result<(), UsersError>) {
        let done = self.db.execute("INSERT INTO scores (uid, score) VALUES(?, ?) ON CONFLICT(uid) DO UPDATE SET score = score + ?", (uid, rating, rating));
        match done { Ok(_) => Ok(()), Err(e) => Err(UsersError::DBError(e)) }
    }
}

} // verus!
