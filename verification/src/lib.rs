//! Verified core of a playlist and dislike-list sync server.
pub mod auth;
pub mod data;
pub mod server;
pub mod text;
pub mod utils;
