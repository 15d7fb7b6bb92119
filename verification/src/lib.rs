//! Request, credential and message logic of a small datastar web application,
//! with the HTTP, database and message-bus plumbing left to the caller.

pub mod text;
pub mod ids;
pub mod config;
pub mod error;
pub mod repo;
pub mod web;
pub mod resources;
