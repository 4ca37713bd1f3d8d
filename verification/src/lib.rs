//! The state of a game server and the rules by which its events change it.

pub mod action;
pub mod address;
pub mod call_laws;
pub mod laws;
pub mod listing;
pub mod model;
pub mod names;
pub mod outside;
pub mod room;
pub mod room_laws;
pub mod server;
pub mod server_laws;
pub mod state;
pub mod stream;
pub mod table;
pub mod task;
pub mod tick_laws;
pub mod view_laws;
