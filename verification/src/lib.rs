//! An end-to-end encrypted terminal chat: the protocol, the group key schedule, the room server
//! and the client's state machines, with their behaviour stated and proved.
pub mod attachments;
pub mod client;
pub mod config;
pub mod crypto;
pub mod outside;
pub mod protocol;
pub mod server;
pub mod transport;
pub mod ui;
pub mod util;
