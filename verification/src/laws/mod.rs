//! What holds of the library as a whole.

pub mod anthropic;
pub mod anthropic_history;
pub mod anthropic_request;
pub mod anthropic_stream;
pub mod chat;
pub mod chat_history;
pub mod chat_request;
pub mod chat_stream;
pub mod config;
pub mod content;
pub mod frames;
mod lists;
pub mod reordering;
pub mod requests;
pub mod routing;
pub mod sending;
pub mod settings;
pub mod stream;
