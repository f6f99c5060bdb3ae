//! The server: rooms, invites and what a connection's lines do.
pub mod broadcast;
pub mod connection;
pub mod invite;
pub mod room;
pub mod session;
pub mod session_laws;
