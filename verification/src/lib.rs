//! iMessage history and messaging: the rules behind the server and the terminal client.
#![allow(unused_imports)]

pub mod bubbles;
pub mod chat_laws;
pub mod chats;
pub mod client;
pub mod client_laws;
pub mod clock;
pub mod config;
pub mod contacts;
pub mod content;
pub mod db;
pub mod emoji;
pub mod history;
pub mod keys;
pub mod laws;
pub mod maps;
pub mod message_laws;
pub mod numbers;
pub mod order;
pub mod panes;
pub mod reactions;
pub mod rows;
pub mod screen;
pub mod screen_laws;
pub mod send;
pub mod server;
pub mod server_laws;
pub mod state;
pub mod text;
pub mod text_laws;
pub mod watch;
pub mod wire;
pub mod wrap;
