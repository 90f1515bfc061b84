//! A chat agent's core: the line protocol of its IRC session, the sessions'
//! life cycle, and the dispatcher that routes each received line through a
//! table of patterns.

pub mod action;
pub mod bot;
pub mod config;
pub mod http;
pub mod pattern;
pub mod server;
pub mod store;
pub mod text;
