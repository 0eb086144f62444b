use botcore::dispatcher::Dispatcher;
use botcore::module::{Interests, Module, PayloadKind};
use botcore::store::Modules;
use botcore::types::{MessageContent, MessageData, MessageKind, Update};

fn fresh() -> Dispatcher {
    Dispatcher::new(Modules::new(":memory:").unwrap())
}

fn consumer_a() -> Interests {
    Interests {
        message_kind: vec![(MessageKind::Text, vec![1])],
        update_kind: vec![],
        command: vec![],
    }
}

fn consumer_b() -> Interests {
    Interests {
        message_kind: vec![],
        update_kind: vec![],
        command: vec![(String::from("/quiz"), vec![2])],
    }
}

fn with_two_modules() -> Dispatcher {
    let mut d = fresh();
    d.add_module(String::from("a"), Module::from_interests(&consumer_a())).unwrap();
    d.add_module(String::from("b"), Module::from_interests(&consumer_b())).unwrap();
    d.startup().unwrap();
    d
}

fn text(data: &str) -> MessageContent {
    MessageContent::Text { data: String::from(data) }
}

fn text_update(chat: i64, data: &str) -> Update {
    Update::Message(MessageData { chat, from: 7, content: text(data) })
}

#[test]
fn duplicate_module_name_is_a_configuration_error() {
    let mut d = fresh();
    assert!(d.add_module(String::from("a"), Module::from_interests(&consumer_a())).is_ok());
    assert!(d.add_module(String::from("a"), Module::from_interests(&consumer_b())).is_err());
}

#[test]
fn enable_routes_and_disable_stops_routing() {
    let mut d = with_two_modules();
    let out = d.service_cmds(&text("/enable a"), 10, true);
    assert!(out.intercepted);
    assert_eq!(out.reply.unwrap().text, "Module enabled");
    assert!(d.is_active(10, "a"));

    let out = d.process_update(&text_update(10, "hello"), false);
    let qs: Vec<u64> = out.deliveries.iter().map(|x| x.queue).collect();
    assert_eq!(qs, vec![1]);

    let out = d.service_cmds(&text("/disable a"), 10, true);
    assert!(out.intercepted);
    assert_eq!(out.reply.unwrap().text, "Module disabled");
    assert!(!d.is_active(10, "a"));

    let out = d.process_update(&text_update(10, "hello"), false);
    assert_eq!(out.deliveries.len(), 0);
}

#[test]
fn non_admin_commands_change_nothing_and_get_no_reply() {
    let mut d = with_two_modules();
    let out = d.process_update(&text_update(10, "/enable a"), false);
    assert!(out.reply.is_none());
    assert!(!d.is_active(10, "a"));
    // the message itself still routes normally (nothing active yet)
    assert_eq!(out.deliveries.len(), 0);
    let out = d.service_cmds(&text("/disable a"), 10, false);
    assert!(!out.intercepted);
    assert!(out.reply.is_none());
}

#[test]
fn admin_command_consumes_the_update() {
    let mut d = with_two_modules();
    d.service_cmds(&text("/enable a"), 10, true);
    let out = d.process_update(&text_update(10, "/enable b"), true);
    assert!(out.reply.is_some());
    assert_eq!(out.deliveries.len(), 0);
}

#[test]
fn modules_listing_is_sorted_and_marked() {
    let mut d = fresh();
    d.add_module(String::from("zeta"), Module::from_interests(&consumer_a())).unwrap();
    d.add_module(String::from("alpha"), Module::from_interests(&consumer_b())).unwrap();
    d.startup().unwrap();
    d.service_cmds(&text("/enable alpha"), 10, true);
    let out = d.service_cmds(&text("/modules"), 10, true);
    assert!(out.intercepted);
    let reply = out.reply.unwrap();
    assert!(reply.markdown);
    assert_eq!(reply.text, "`Available modules: \n+ alpha\n- zeta\n`");
    // another chat sees the same names, all disabled
    let out = d.service_cmds(&text("/modules"), 11, true);
    assert_eq!(out.reply.unwrap().text, "`Available modules: \n- alpha\n- zeta\n`");
}

#[test]
fn enable_unknown_and_missing_argument_replies() {
    let mut d = with_two_modules();
    let out = d.service_cmds(&text("/enable nosuch"), 10, true);
    assert_eq!(out.reply.unwrap().text, "Module not found");
    let out = d.service_cmds(&text("/enable"), 10, true);
    assert_eq!(out.reply.unwrap().text, "Specify module name");
    let out = d.service_cmds(&text("/disable"), 10, true);
    assert_eq!(out.reply.unwrap().text, "Specify module name");
}

#[test]
fn disable_twice_replies_success_both_times() {
    let mut d = with_two_modules();
    let first = d.service_cmds(&text("/disable a"), 10, true);
    let second = d.service_cmds(&text("/disable a"), 10, true);
    assert_eq!(first.reply.unwrap().text, "Module disabled");
    assert_eq!(second.reply.unwrap().text, "Module disabled");
    assert!(!d.is_active(10, "a"));
}

#[test]
fn scoped_fanout_follows_the_active_set() {
    let mut d = with_two_modules();
    d.service_cmds(&text("/enable a"), 10, true);
    // "/quiz foo" is a text message and a command; only a is active, so
    // only a's text queue receives it
    let out = d.process_update(&text_update(10, "/quiz foo"), false);
    let qs: Vec<u64> = out.deliveries.iter().map(|x| x.queue).collect();
    assert_eq!(qs, vec![1]);
    assert_eq!(out.deliveries[0].payload, PayloadKind::Message);
    // enabling b as well delivers to both
    d.service_cmds(&text("/enable b"), 10, true);
    let out = d.process_update(&text_update(10, "/quiz foo"), false);
    let mut qs: Vec<u64> = out.deliveries.iter().map(|x| x.queue).collect();
    qs.sort();
    assert_eq!(qs, vec![1, 2]);
    // a different chat with nothing enabled receives nothing
    let out = d.process_update(&text_update(11, "/quiz foo"), false);
    assert_eq!(out.deliveries.len(), 0);
}

#[test]
fn non_chat_updates_reach_every_module() {
    let mut d = fresh();
    let poller = Interests {
        message_kind: vec![],
        update_kind: vec![(botcore::types::UpdateKind::Poll, vec![9])],
        command: vec![],
    };
    d.add_module(String::from("p"), Module::from_interests(&poller)).unwrap();
    d.startup().unwrap();
    // no chat ever enabled p, yet a poll update reaches it
    let out = d.process_update(&Update::Poll, false);
    let qs: Vec<u64> = out.deliveries.iter().map(|x| x.queue).collect();
    assert_eq!(qs, vec![9]);
    assert_eq!(out.deliveries[0].payload, PayloadKind::Update);
}
