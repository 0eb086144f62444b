use botcore::antimoon::should_delete;
use botcore::captcha::{captcha_task, CaptchaAction, CaptchaState, UserCaptcha};
use botcore::quiz::{last_correct_index, poll_result, user_list, Poll, PollList};
use botcore::top::format_top;
use botcore::users::User;

#[test]
fn captcha_task_is_a_digit() {
    assert_eq!(captcha_task(0), 1);
    assert_eq!(captcha_task(8), 9);
    assert_eq!(captcha_task(9), 1);
    assert_eq!(captcha_task(255), 4);
    for raw in 0..=255u8 {
        let t = captcha_task(raw);
        assert!((1..=9).contains(&t));
    }
}

#[test]
fn captcha_settles_only_for_the_challenged_user() {
    let mut st = CaptchaState::new();
    st.register(100, UserCaptcha { user_id: 5, chat_id: 10, date: 0, task: 7 });
    // someone else's press is ignored and the challenge stays
    assert_eq!(st.on_callback(100, 10, 6, "7"), CaptchaAction::Ignore);
    assert!(st.get(100).is_some());
    // a wrong digit kicks
    assert_eq!(st.on_callback(100, 10, 5, "3"), CaptchaAction::Kick { chat: 10, user: 5 });
    assert!(st.get(100).is_none());
    // the right digit readmits
    st.register(101, UserCaptcha { user_id: 5, chat_id: 10, date: 0, task: 7 });
    assert_eq!(st.on_callback(101, 10, 5, "7"), CaptchaAction::Allow { chat: 10, user: 5 });
    // garbage parses as zero and kicks
    st.register(102, UserCaptcha { user_id: 5, chat_id: 10, date: 0, task: 7 });
    assert_eq!(st.on_callback(102, 10, 5, "x7"), CaptchaAction::Kick { chat: 10, user: 5 });
    // unknown prompt is ignored
    assert_eq!(st.on_callback(999, 10, 5, "7"), CaptchaAction::Ignore);
}

#[test]
fn captcha_timeouts_after_a_minute() {
    let mut st = CaptchaState::new();
    st.register(1, UserCaptcha { user_id: 5, chat_id: 10, date: 1_000, task: 3 });
    st.register(2, UserCaptcha { user_id: 6, chat_id: 10, date: 50_000, task: 4 });
    assert_eq!(st.timed_out(60_000), Vec::<i64>::new());
    assert_eq!(st.timed_out(61_001), vec![1]);
    assert_eq!(st.timed_out(200_000), vec![1, 2]);
    assert_eq!(st.remove(1).map(|c| c.user_id), Some(5));
    assert_eq!(st.timed_out(200_000), vec![2]);
}

#[test]
fn quiz_counter_guards_one_poll_per_chat() {
    let mut polls = PollList::new();
    assert!(polls.try_begin(10));
    assert!(!polls.try_begin(10));
    assert!(polls.try_begin(11));
    // a poll that drew no answers releases the counter
    assert!(polls.note_expired(10, false));
    assert!(polls.try_begin(10));
    // one that drew answers keeps it (a follow-up starts)
    assert!(polls.note_expired(10, true));
    assert!(!polls.try_begin(10));
    // a never-seen chat with no answers reports the corruption
    assert!(!polls.note_expired(99, false));
}

fn poll(id: &str, chat: i64, correct: i32, start: u64) -> Poll {
    Poll {
        id: String::from(id),
        chat,
        message_id: 500,
        correct_answers: vec![],
        incorrect_answers: vec![],
        correct_answer: correct,
        start,
    }
}

#[test]
fn quiz_records_answers_and_rating_changes() {
    let mut polls = PollList::new();
    polls.register_poll(poll("p1", 10, 2, 1_000));
    assert_eq!(polls.record_answer("p1", 5, String::from("Ada"), 2), Some(2));
    assert_eq!(polls.record_answer("p1", 6, String::from("Bob"), 0), Some(-1));
    assert_eq!(polls.record_answer("nope", 6, String::from("Bob"), 0), None);
    assert_eq!(polls.over_polls(16_001), vec![String::from("p1")]);
    assert_eq!(polls.over_polls(16_000), Vec::<String>::new());
    let taken = polls.take_poll("p1").unwrap();
    assert_eq!(taken.correct_answers, vec![(5, String::from("Ada"))]);
    assert_eq!(taken.incorrect_answers, vec![(6, String::from("Bob"))]);
    assert!(polls.take_poll("p1").is_none());
}

#[test]
fn quiz_result_message_lists_both_sides() {
    let mut p = poll("p1", 10, 2, 0);
    assert_eq!(
        poll_result(&p),
        "Никто не ответил:с\n        Ну и сами себе вопросы загадывайте\\!"
    );
    p.correct_answers.push((5, String::from("Ada")));
    p.correct_answers.push((7, String::from("C_harles")));
    p.incorrect_answers.push((6, String::from("Bob")));
    assert_eq!(
        poll_result(&p),
        "Список Кодзим: *Ada*, *C\\_harles*\nСписок дэбилов: *Bob*"
    );
    assert_eq!(user_list(&p.correct_answers), "*Ada*, *C\\_harles*");
}

#[test]
fn last_marked_correct_option_wins() {
    let answers = vec![
        (String::from("a"), false),
        (String::from("b"), true),
        (String::from("c"), true),
        (String::from("d"), false),
    ];
    assert_eq!(last_correct_index(&answers), Some(2));
    let none = vec![(String::from("a"), false)];
    assert_eq!(last_correct_index(&none), None);
    assert_eq!(last_correct_index(&Vec::new()), None);
}

#[test]
fn moon_messages_are_deleted() {
    assert!(should_delete("hello \u{1F31A} there"));
    assert!(should_delete("\u{1F31A}"));
    assert!(!should_delete("full moon \u{1F31D}"));
    assert!(!should_delete(""));
}

#[test]
fn top_formatting_escapes_names_and_negative_scores() {
    let rows = vec![
        (
            User {
                uid: 1,
                first_name: String::from("Ada"),
                last_name: String::from("L."),
                username: String::from("ada"),
            },
            12,
        ),
        (
            User {
                uid: 2,
                first_name: String::from("Bob"),
                last_name: String::new(),
                username: String::from("bob"),
            },
            -3,
        ),
    ];
    assert_eq!(format_top(&rows), "Top 10: \n1 Ada L\\.: 12\n2 Bob: \\-3");
    assert_eq!(format_top(&Vec::new()), "Top 10: ");
}
