use botcore::quests::Quester;
use botcore::users::{User, Users};

#[test]
fn quester_draws_the_stored_question_with_shuffled_answers() {
    let path = "/tmp/botcore_test_quests.sqlite3";
    {
        let conn = rusqlite::Connection::open(path).unwrap();
        conn.execute("DROP TABLE IF EXISTS questions", ()).unwrap();
        conn.execute("DROP TABLE IF EXISTS answers", ()).unwrap();
        conn.execute("CREATE TABLE questions (id INTEGER PRIMARY KEY, text TEXT)", ()).unwrap();
        conn.execute("CREATE TABLE answers (question_id INTEGER, answer TEXT, valid INTEGER)", ())
            .unwrap();
        conn.execute("INSERT INTO questions (id, text) VALUES (1, 'Who?')", ()).unwrap();
        conn.execute("INSERT INTO answers VALUES (1, 'right', 1)", ()).unwrap();
        conn.execute("INSERT INTO answers VALUES (1, 'wrong', 0)", ()).unwrap();
        conn.execute("INSERT INTO answers VALUES (1, 'also wrong', 0)", ()).unwrap();
    }
    let q = Quester::new(path).unwrap();
    let quest = q.get_quest().unwrap();
    assert_eq!(quest.text, "Who?");
    let mut answers = quest.answers.clone();
    answers.sort();
    assert_eq!(
        answers,
        vec![
            (String::from("also wrong"), false),
            (String::from("right"), true),
            (String::from("wrong"), false),
        ]
    );
}

#[test]
fn users_top_comes_back_sorted_and_limited() {
    let mut users = Users::new(":memory:").unwrap();
    for (uid, first, score) in
        [(1i64, "Ada", 5i64), (2, "Bob", 9), (3, "Cad", -2), (4, "Dee", 7)]
    {
        users
            .update_user(&User {
                uid,
                first_name: String::from(first),
                last_name: String::new(),
                username: String::from(first),
            })
            .unwrap();
        users.inc_rating(uid, score).unwrap();
    }
    // incrementing again accumulates
    users.inc_rating(1, 6).unwrap();
    let top = users.get_top(3).unwrap();
    let scores: Vec<i64> = top.iter().map(|e| e.1).collect();
    assert_eq!(scores, vec![11, 9, 7]);
    assert_eq!(top[0].0.first_name, "Ada");
    let all = users.get_top(10).unwrap();
    assert_eq!(all.len(), 4);
    assert_eq!(all[3].1, -2);
}

#[test]
fn update_user_refreshes_the_record() {
    let mut users = Users::new(":memory:").unwrap();
    users
        .update_user(&User {
            uid: 1,
            first_name: String::from("Ada"),
            last_name: String::new(),
            username: String::from("ada"),
        })
        .unwrap();
    users
        .update_user(&User {
            uid: 1,
            first_name: String::from("Adeline"),
            last_name: String::from("L"),
            username: String::from("ada"),
        })
        .unwrap();
    users.inc_rating(1, 1).unwrap();
    let top = users.get_top(1).unwrap();
    assert_eq!(top[0].0.first_name, "Adeline");
    assert_eq!(top[0].0.last_name, "L");
}
