//! A chat-event logging pipeline: events from a real-time source are
//! buffered in fixed time windows and persisted in all-or-nothing batches,
//! while each event is also formatted and fanned out to human-readable
//! sinks; a small durable key-value store keeps the refreshed credentials
//! across restarts.
pub mod buffer;
pub mod chat;
pub mod chat_message_format;
pub mod config;
pub mod console_logger;
pub mod db_logger;
pub mod codec;
pub mod env;
pub mod file_logger;
pub mod handler;
pub mod error;
pub mod kvline;
pub mod store_laws;
pub mod value_logger;
