//! Verified core of the greego graph knowledge base: sentence splitting and
//! chunk grouping, chat message conversion for the model providers,
//! server-sent-event framing, the database event queue, service registries,
//! and the small parsers and builders used around them.

pub mod text;
pub mod urls;
pub mod version;
pub mod chunking;
pub mod commands;
pub mod db;
pub mod event_queue;
pub mod json;
pub mod llm;
pub mod providers;
pub mod registry;
pub mod responses;
pub mod sse;
