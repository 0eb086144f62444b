//! Event dispatch and subscription router for a chat bot.
//!
//! A single inbound stream of typed events ("updates") is classified along
//! three axes (update kind, message content kind, leading command token) and
//! fanned out to independently registered consumers ("modules"). Each module
//! is scoped per conversation: its handlers only fire for a chat that has
//! enabled the module, with enablement persisted durably across restarts.

pub mod antimoon;
pub mod captcha;
pub mod dispatcher;
pub mod markdown;
pub mod module;
pub mod quests;
pub mod quiz;
pub mod store;
pub mod text;
pub mod top;
pub mod types;
pub mod users;
pub mod utils;
