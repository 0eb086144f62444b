//! The router's data model: the closed category enumerations, the plain
//! model of an inbound update, and the classifier that maps an update to
//! its `(UpdateKind, Option<MessageKind>, Option<command token>)` triple.

use vstd::prelude::*;
use crate::text;

verus! {

/// Closed enumeration of message content kinds. Unmatched raw variants fall
/// back to `Unknown`, never an error.
#[derive(Clone, Copy, Hash, PartialEq, Eq, Structural, Debug)]
pub enum MessageKind {
    Text,
    Audio,
    Document,
    Photo,
    Sticker,
    Video,
    Voice,
    VideoNote,
    Contact,
    Location,
    Poll,
    Venue,
    NewChatMembers,
    LeftChatMember,
    NewChatTitle,
    NewChatPhoto,
    DeleteChatPhoto,
    GroupChatCreated,
    SupergroupChatCreated,
    ChannelChatCreated,
    MigrateToChatId,
    MigrateFromChatId,
    PinnedMessage,
    Unknown,
}

/// Closed enumeration of update kinds.
#[derive(Clone, Copy, Hash, PartialEq, Eq, Structural, Debug)]
pub enum UpdateKind {
    Message,
    EditedMessage,
    ChannelPost,
    EditedChannelPost,
    InlineQuery,
    CallbackQuery,
    Poll,
    PollAnswer,
    Error,
    Unknown,
}

/// Plain model of a message's content: the variant the router classifies on,
/// with the text payload for text messages (the only payload the router
/// reads).
pub enum MessageContent {
    Text { data: String },
    Audio,
    Document,
    Photo,
    Sticker,
    Video,
    Voice,
    VideoNote,
    Contact,
    Location,
    Poll,
    Venue,
    NewChatMembers,
    LeftChatMember,
    NewChatTitle,
    NewChatPhoto,
    DeleteChatPhoto,
    GroupChatCreated,
    SupergroupChatCreated,
    ChannelChatCreated,
    MigrateToChatId,
    MigrateFromChatId,
    PinnedMessage,
    Unknown,
}

/// Plain model of a chat message: its chat, its sender, and its content.
pub struct MessageData {
    pub chat: i64,
    pub from: i64,
    pub content: MessageContent,
}

/// Plain model of one inbound update from the source stream.
pub enum Update {
    Message(MessageData),
    EditedMessage(MessageData),
    ChannelPost,
    EditedChannelPost,
    InlineQuery,
    CallbackQuery,
    Poll,
    PollAnswer,
    Error,
    Unknown,
}

/// The message category of a content value.
pub open spec fn kind_of_content(c: MessageContent) -> MessageKind {
    match c {
        MessageContent::Text { .. } => MessageKind::Text,
        MessageContent::Audio => MessageKind::Audio,
        MessageContent::Document => MessageKind::Document,
        MessageContent::Photo => MessageKind::Photo,
        MessageContent::Sticker => MessageKind::Sticker,
        MessageContent::Video => MessageKind::Video,
        MessageContent::Voice => MessageKind::Voice,
        MessageContent::VideoNote => MessageKind::VideoNote,
        MessageContent::Contact => MessageKind::Contact,
        MessageContent::Location => MessageKind::Location,
        MessageContent::Poll => MessageKind::Poll,
        MessageContent::Venue => MessageKind::Venue,
        MessageContent::NewChatMembers => MessageKind::NewChatMembers,
        MessageContent::LeftChatMember => MessageKind::LeftChatMember,
        MessageContent::NewChatTitle => MessageKind::NewChatTitle,
        MessageContent::NewChatPhoto => MessageKind::NewChatPhoto,
        MessageContent::DeleteChatPhoto => MessageKind::DeleteChatPhoto,
        MessageContent::GroupChatCreated => MessageKind::GroupChatCreated,
        MessageContent::SupergroupChatCreated => MessageKind::SupergroupChatCreated,
        MessageContent::ChannelChatCreated => MessageKind::ChannelChatCreated,
        MessageContent::MigrateToChatId => MessageKind::MigrateToChatId,
        MessageContent::MigrateFromChatId => MessageKind::MigrateFromChatId,
        MessageContent::PinnedMessage => MessageKind::PinnedMessage,
        MessageContent::Unknown => MessageKind::Unknown,
    }
}

/// The update category of an update.
pub open spec fn kind_of_update(u: Update) -> UpdateKind {
    match u {
        Update::Message(..) => UpdateKind::Message,
        Update::EditedMessage(..) => UpdateKind::EditedMessage,
        Update::ChannelPost => UpdateKind::ChannelPost,
        Update::EditedChannelPost => UpdateKind::EditedChannelPost,
        Update::InlineQuery => UpdateKind::InlineQuery,
        Update::CallbackQuery => UpdateKind::CallbackQuery,
        Update::Poll => UpdateKind::Poll,
        Update::PollAnswer => UpdateKind::PollAnswer,
        Update::Error => UpdateKind::Error,
        Update::Unknown => UpdateKind::Unknown,
    }
}

/// The message wrapped by an update, when it wraps one (received or edited).
pub open spec fn message_of_update(u: Update) -> Option<MessageData> {
    match u {
        Update::Message(m) => Some(m),
        Update::EditedMessage(m) => Some(m),
        _ => None,
    }
}

/// The command token of a content value: the first token of a text message,
/// split on space, newline and '@'. Empty text yields no command.
pub open spec fn spec_command_token(c: MessageContent) -> Option<Seq<char>> {
    match c {
        MessageContent::Text { data } => if data@.len() == 0 {
            None
        } else {
            Some(text::first_token(data@))
        },
        _ => None,
    }
}

/// The message category of an update, defined only when the update is a
/// received or edited message.
pub open spec fn spec_message_kind(u: Update) -> Option<MessageKind> {
    match message_of_update(u) {
        Some(m) => Some(kind_of_content(m.content)),
        None => None,
    }
}

/// The command token of an update.
pub open spec fn spec_update_token(u: Update) -> Option<Seq<char>> {
    match message_of_update(u) {
        Some(m) => spec_command_token(m.content),
        None => None,
    }
}

impl MessageKind {
    /// Classifies a message content value; total, with `Unknown` fallback.
    pub fn from(c: &MessageContent) -> (k: MessageKind)
        ensures
            k == kind_of_content(*c),
    {
        match c {
            MessageContent::Text { .. } => MessageKind::Text,
            MessageContent::Audio => MessageKind::Audio,
            MessageContent::Document => MessageKind::Document,
            MessageContent::Photo => MessageKind::Photo,
            MessageContent::Sticker => MessageKind::Sticker,
            MessageContent::Video => MessageKind::Video,
            MessageContent::Voice => MessageKind::Voice,
            MessageContent::VideoNote => MessageKind::VideoNote,
            MessageContent::Contact => MessageKind::Contact,
            MessageContent::Location => MessageKind::Location,
            MessageContent::Poll => MessageKind::Poll,
            MessageContent::Venue => MessageKind::Venue,
            MessageContent::NewChatMembers => MessageKind::NewChatMembers,
            MessageContent::LeftChatMember => MessageKind::LeftChatMember,
            MessageContent::NewChatTitle => MessageKind::NewChatTitle,
            MessageContent::NewChatPhoto => MessageKind::NewChatPhoto,
            MessageContent::DeleteChatPhoto => MessageKind::DeleteChatPhoto,
            MessageContent::GroupChatCreated => MessageKind::GroupChatCreated,
            MessageContent::SupergroupChatCreated => MessageKind::SupergroupChatCreated,
            MessageContent::ChannelChatCreated => MessageKind::ChannelChatCreated,
            MessageContent::MigrateToChatId => MessageKind::MigrateToChatId,
            MessageContent::MigrateFromChatId => MessageKind::MigrateFromChatId,
            MessageContent::PinnedMessage => MessageKind::PinnedMessage,
            MessageContent::Unknown => MessageKind::Unknown,
        }
    }
}

impl UpdateKind {
    /// Classifies an update; total, with `Unknown` fallback.
    pub fn from(u: &Update) -> (k: UpdateKind)
        ensures
            k == kind_of_update(*u),
    {
        match u {
            Update::Message(..) => UpdateKind::Message,
            Update::EditedMessage(..) => UpdateKind::EditedMessage,
            Update::ChannelPost => UpdateKind::ChannelPost,
            Update::EditedChannelPost => UpdateKind::EditedChannelPost,
            Update::InlineQuery => UpdateKind::InlineQuery,
            Update::CallbackQuery => UpdateKind::CallbackQuery,
            Update::Poll => UpdateKind::Poll,
            Update::PollAnswer => UpdateKind::PollAnswer,
            Update::Error => UpdateKind::Error,
            Update::Unknown => UpdateKind::Unknown,
        }
    }
}

/// The command token of a content value, as an owned string.
pub fn command_token(c: &MessageContent) -> (r: Option<String>)
    ensures
        r is Some <==> spec_command_token(*c) is Some,
        r matches Some(s) ==> spec_command_token(*c) == Some(s@),
{
    match c {
        MessageContent::Text { data } => {
            if data.as_str().is_empty() {
                None
            } else {
                let v = text::str_chars(data.as_str());
                let tok = text::first_token_vec(&v);
                Some(text::chars_str(&tok))
            }
        },
        _ => None,
    }
}

/// The classifier: maps an update to its update category, its message
/// category (for received or edited messages) and its command token (for
/// nonempty text messages). Total: every raw variant maps into the closed
/// enumerations, and malformed input cannot occur by construction.
pub fn classify(u: &Update) -> (r: (UpdateKind, Option<MessageKind>, Option<String>))
    ensures
        r.0 == kind_of_update(*u),
        r.1 == spec_message_kind(*u),
        r.2 is Some <==> spec_update_token(*u) is Some,
        r.2 matches Some(s) ==> spec_update_token(*u) == Some(s@),
{
    let kind = UpdateKind::from(u);
    match u {
        Update::Message(m) | Update::EditedMessage(m) => {
            let mk = MessageKind::from(&m.content);
            let tok = command_token(&m.content);
            (kind, Some(mk), tok)
        },
        _ => (kind, None, None),
    }
}

} // verus!
