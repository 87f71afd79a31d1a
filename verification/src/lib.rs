pub mod auth;
pub mod cli;
pub mod config;
pub mod dav;
pub mod events;
pub mod fs_backend;
pub mod http;
pub mod network;
pub mod server;
pub mod text;
pub mod tui;
