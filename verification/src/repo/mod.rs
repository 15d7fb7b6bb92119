//! Credential rules, account outcomes and message-stream logic.

pub mod error;
pub mod auth;
pub mod streams;
