use botcore::module::{Delivery, Interests, Module, PayloadKind};
use botcore::types::{MessageContent, MessageData, MessageKind, Update, UpdateKind};

fn text_update(chat: i64, data: &str) -> Update {
    Update::Message(MessageData {
        chat,
        from: 7,
        content: MessageContent::Text { data: String::from(data) },
    })
}

fn queues(ds: &[Delivery]) -> Vec<u64> {
    ds.iter().map(|d| d.queue).collect()
}

#[test]
fn merge_concatenates_overlapping_keys_in_registration_order() {
    let a = Interests {
        message_kind: vec![(MessageKind::Text, vec![1, 2])],
        update_kind: vec![],
        command: vec![(String::from("/go"), vec![3])],
    };
    let b = Interests {
        message_kind: vec![(MessageKind::Text, vec![4])],
        update_kind: vec![],
        command: vec![(String::from("/go"), vec![5]), (String::from("/other"), vec![6])],
    };
    let m = Module::build(&vec![a, b]);
    let ds = m.handle(&text_update(1, "/go now"));
    // text queues of a, then of b; then /go queues of a, then of b
    assert_eq!(queues(&ds), vec![1, 2, 4, 3, 5]);
    for d in &ds {
        assert_eq!(d.payload, PayloadKind::Message);
    }
}

#[test]
fn handle_orders_update_then_message_then_command() {
    let a = Interests {
        message_kind: vec![(MessageKind::Text, vec![20])],
        update_kind: vec![(UpdateKind::Message, vec![10])],
        command: vec![(String::from("/x"), vec![30])],
    };
    let m = Module::from_interests(&a);
    let ds = m.handle(&text_update(1, "/x"));
    assert_eq!(queues(&ds), vec![10, 20, 30]);
    assert_eq!(ds[0].payload, PayloadKind::Update);
    assert_eq!(ds[1].payload, PayloadKind::Message);
    assert_eq!(ds[2].payload, PayloadKind::Message);
}

#[test]
fn unmatched_keys_deliver_nothing() {
    let a = Interests {
        message_kind: vec![(MessageKind::Photo, vec![1])],
        update_kind: vec![(UpdateKind::Poll, vec![2])],
        command: vec![(String::from("/quiz"), vec![3])],
    };
    let m = Module::from_interests(&a);
    let ds = m.handle(&text_update(1, "hello"));
    assert_eq!(ds.len(), 0);
    let ds = m.handle(&Update::Poll);
    assert_eq!(queues(&ds), vec![2]);
    assert_eq!(ds[0].payload, PayloadKind::Update);
}
