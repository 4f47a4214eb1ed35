//! A verified core for a desktop chat client: per-conversation configuration
//! and history kept in an embedded store, a lazily built API-client registry,
//! and the session orchestration that turns a stored conversation plus a new
//! user message into a streaming completion request and commits the exchange.

pub mod chat;
pub mod client;
pub mod codec;
pub mod commands;
pub mod config;
pub mod error;
pub mod logger;
pub mod store;
