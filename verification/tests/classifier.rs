use botcore::types::{classify, command_token, MessageContent, MessageData, MessageKind, Update, UpdateKind};

fn msg(chat: i64, from: i64, content: MessageContent) -> Update {
    Update::Message(MessageData { chat, from, content })
}

#[test]
fn classifies_every_update_variant() {
    let cases = vec![
        (Update::ChannelPost, UpdateKind::ChannelPost),
        (Update::EditedChannelPost, UpdateKind::EditedChannelPost),
        (Update::InlineQuery, UpdateKind::InlineQuery),
        (Update::CallbackQuery, UpdateKind::CallbackQuery),
        (Update::Poll, UpdateKind::Poll),
        (Update::PollAnswer, UpdateKind::PollAnswer),
        (Update::Error, UpdateKind::Error),
        (Update::Unknown, UpdateKind::Unknown),
    ];
    for (u, expected) in cases {
        let (kind, mk, tok) = classify(&u);
        assert_eq!(kind, expected);
        assert!(mk.is_none());
        assert!(tok.is_none());
    }
    let (kind, mk, _) = classify(&msg(1, 2, MessageContent::Sticker));
    assert_eq!(kind, UpdateKind::Message);
    assert_eq!(mk, Some(MessageKind::Sticker));
    let (kind, mk, _) = classify(&Update::EditedMessage(MessageData {
        chat: 1,
        from: 2,
        content: MessageContent::Photo,
    }));
    assert_eq!(kind, UpdateKind::EditedMessage);
    assert_eq!(mk, Some(MessageKind::Photo));
}

#[test]
fn text_message_yields_first_token() {
    let (kind, mk, tok) = classify(&msg(1, 2, MessageContent::Text {
        data: String::from("/quiz foo bar"),
    }));
    assert_eq!(kind, UpdateKind::Message);
    assert_eq!(mk, Some(MessageKind::Text));
    assert_eq!(tok, Some(String::from("/quiz")));
}

#[test]
fn token_splits_on_newline_and_at() {
    let t = command_token(&MessageContent::Text { data: String::from("/top@somebot x") });
    assert_eq!(t, Some(String::from("/top")));
    let t = command_token(&MessageContent::Text { data: String::from("hello\nworld") });
    assert_eq!(t, Some(String::from("hello")));
    let t = command_token(&MessageContent::Text { data: String::from("@mention first") });
    assert_eq!(t, Some(String::from("")));
}

#[test]
fn empty_text_yields_no_token() {
    let t = command_token(&MessageContent::Text { data: String::new() });
    assert_eq!(t, None);
    let t = command_token(&MessageContent::Photo);
    assert_eq!(t, None);
}
