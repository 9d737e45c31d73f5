//! A browser terminal server: sessions, terminals, files, and the wire protocol between them.

pub mod auth;
pub mod callbacks;
pub mod client;
pub mod config;
pub mod files;
pub mod frame;
pub mod headers;
pub mod json;
pub mod keys;
pub mod manager;
pub mod order;
pub mod paths;
pub mod reply;
pub mod screen;
pub mod tail;
pub mod term;
pub mod text;
pub mod ws;
