//! A record store laid over a chat channel's recent history, the todo list and
//! the watermark-driven feed polling pipeline built on top of it.

pub mod chat;
pub mod clock;
pub mod pipeline;
pub mod rss_feed;
pub mod social;
pub mod store;
pub mod text;
pub mod todo;
