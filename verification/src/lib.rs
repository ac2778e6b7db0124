//! A terminal chat client's core: an incremental decoder for a streaming
//! chat-completion wire format, and an accumulator that folds the decoded
//! fragments into a conversation transcript.

pub mod api;
pub mod chat;
pub mod config;
pub mod decode;
pub mod frame;
pub mod input;
pub mod json;
pub mod markdown;
pub mod sse;
pub mod stream;
pub mod ui;
