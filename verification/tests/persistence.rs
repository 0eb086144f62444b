use botcore::dispatcher::Dispatcher;
use botcore::module::{Interests, Module};
use botcore::store::Modules;
use botcore::types::{MessageContent, MessageKind};

fn consumer() -> Interests {
    Interests {
        message_kind: vec![(MessageKind::Text, vec![1])],
        update_kind: vec![],
        command: vec![],
    }
}

fn text(data: &str) -> MessageContent {
    MessageContent::Text { data: String::from(data) }
}

fn build(path: &str) -> Dispatcher {
    let mut d = Dispatcher::new(Modules::new(path).unwrap());
    d.add_module(String::from("quiz"), Module::from_interests(&consumer())).unwrap();
    d.add_module(String::from("top"), Module::from_interests(&consumer())).unwrap();
    d.startup().unwrap();
    d
}

#[test]
fn restart_reproduces_the_active_set() {
    let path = "/tmp/botcore_test_restart.sqlite3";
    // start from a known slate for the records this test touches
    {
        let mut store = Modules::new(path).unwrap();
        store.rm(42, "quiz").unwrap();
        store.rm(42, "top").unwrap();
    }
    {
        let mut d = build(path);
        assert!(!d.is_active(42, "quiz"));
        let out = d.service_cmds(&text("/enable quiz"), 42, true);
        assert_eq!(out.reply.unwrap().text, "Module enabled");
        assert!(d.is_active(42, "quiz"));
    }
    // a fresh process with the same store reproduces the active set
    // without any /enable
    {
        let d = build(path);
        assert!(d.is_active(42, "quiz"));
        assert!(!d.is_active(42, "top"));
    }
    // disabling removes the persisted record as well
    {
        let mut d = build(path);
        let out = d.service_cmds(&text("/disable quiz"), 42, true);
        assert_eq!(out.reply.unwrap().text, "Module disabled");
    }
    {
        let d = build(path);
        assert!(!d.is_active(42, "quiz"));
    }
}

#[test]
fn store_insert_and_remove_are_idempotent() {
    let mut store = Modules::new(":memory:").unwrap();
    assert!(store.add(1, "m").is_ok());
    assert!(store.add(1, "m").is_ok());
    assert!(store.rm(1, "m").is_ok());
    assert!(store.rm(1, "m").is_ok());
    let recs = store.modules().unwrap();
    assert_eq!(recs.len(), 0);
}

#[test]
fn rehydration_skips_unknown_module_names() {
    let path = "/tmp/botcore_test_unknown.sqlite3";
    {
        let mut store = Modules::new(path).unwrap();
        store.rm(7, "gone").unwrap();
        store.add(7, "gone").unwrap();
    }
    let d = build(path);
    assert!(!d.is_active(7, "gone"));
    // cleanup for the next run
    let mut store = Modules::new(path).unwrap();
    store.rm(7, "gone").unwrap();
}

#[test]
fn listed_records_round_trip() {
    let mut store = Modules::new(":memory:").unwrap();
    store.add(5, "alpha").unwrap();
    store.add(6, "beta").unwrap();
    let mut recs = store.modules().unwrap();
    recs.sort();
    assert_eq!(recs, vec![(5, String::from("alpha")), (6, String::from("beta"))]);
}
