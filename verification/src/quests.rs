//! Quiz question storage: draws a random question with its answers from
//! the questions database and shuffles the answer order.

use vstd::prelude::*;
use rand::prelude::SliceRandom;

verus! {

/// Failure of the question store: an error of the underlying database.
#[derive(Debug)]
pub enum QuesterError {
    DBError(rusqlite::Error),
}

/// One quiz question: its text and its answers, each marked correct or
/// not.
pub struct Question {
    pub text: String,
    pub answers: Vec<(String, bool)>,
}

/// Handle on the questions database.
pub struct Quester {
    db: rusqlite::Connection,
}

/// Relies on rand's `SliceRandom::shuffle` with `thread_rng`: a random
/// reordering. The order depends on the generator, so only what holds of
/// every outcome is stated: the same answers, as a multiset.
#[verifier::external_body]
fn shuffle_answers(v: Vec<(String, bool)>) -> (r: Vec<(String, bool)>)
    ensures
        r@.to_multiset() == v@.to_multiset(),
{
    let mut v = v;
    v.shuffle(&mut rand::thread_rng());
    v
}

/// Marks each answer with whether its stored validity flag is one.
fn flag_answers(raw: Vec<(String, i32)>) -> (r: Vec<(String, bool)>)
    ensures
        r@.len() == raw@.len(),
        forall|i: int|
            0 <= i < raw@.len() ==> (#[trigger] r@[i]) == (raw@[i].0, raw@[i].1 == 1i32),
{
    let mut r: Vec<(String, bool)> = Vec::new();
    let mut i: usize = 0;
    while i < raw.len()
        invariant
            0 <= i <= raw@.len(),
            r@.len() == i,
            forall|j: int|
                0 <= j < i ==> (#[trigger] r@[j]) == (raw@[j].0, raw@[j].1 == 1i32),
        decreases raw@.len() - i,
    {
        let e = &raw[i];
        let name = e.0.clone();
        r.push((name, e.1 == 1));
        i = i + 1;
    }
    r
}

impl Quester {
    /// Relies on rusqlite's `Connection::open`: opens the questions
    /// database at `path`.
    #[verifier::external_body]
    pub fn new(path: &str) -> (r: Result<Quester, rusqlite::Error>) {
        match rusqlite::Connection::open(path) {
            Ok(db) => Ok(Quester { db }),
            Err(e) => Err(e),
        }
    }

    /// Relies on rusqlite's `query_row` and `query_map`: one random
    /// question row with its answer rows, validity as the stored integer.
    /// What comes back depends on the database and its random ordering,
    /// so nothing is promised of the contents.
    #[verifier::external_body]
    fn fetch_quest(&self) -> (r: Result<(String, Vec<(String, i32)>), QuesterError>) {
        let run = || -> Result<(String, Vec<(String, i32)>), rusqlite::Error> {
            let (id, text): (i32, String) = self.db.query_row("SELECT * FROM questions ORDER BY RANDOM() LIMIT 1;", (), |row| Ok((row.get(0)?, row.get(1)?)))?;
            let mut st = self.db.prepare("SELECT answer,valid FROM answers WHERE question_id=?;")?;
            let rows = st.query_map((id,), |row| Ok((row.get(0)?, row.get(1)?)))?;
            Ok((text, rows.collect::<Result<Vec<(String, i32)>, rusqlite::Error>>()?))
        };
        match run() { Ok(v) => Ok(v), Err(e) => Err(QuesterError::DBError(e)) }
    }

    /// Draws a random question: its stored answers are marked correct
    /// exactly where their validity flag is one, then shuffled, so the
    /// returned answers are a multiset-preserving reordering of the
    /// stored ones.
    pub fn get_quest(&self) -> (r: Result<Question, QuesterError>) {
        match self.fetch_quest() {
            Ok((text, raw)) => {
                let flagged = flag_answers(raw);
                let answers = shuffle_answers(flagged);
                Ok(Question { text, answers })
            },
            Err(e) => Err(e),
        }
    }
}

} // verus!
