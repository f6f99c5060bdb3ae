//! The client: input, messages and what they mean.
pub mod app;
pub mod drain;
pub mod fault_laws;
pub mod initialization;
pub mod input;
pub mod input_laws;
pub mod handshake;
pub mod handshake_laws;
pub mod keyboard;
pub mod keyboard_laws;
pub mod laws;
pub mod line_laws;
pub mod network;
pub mod receiver;
pub mod ui;
pub mod upkeep_laws;
pub mod utils;
