//! The lines that clients and the server exchange.
pub mod attachment;
pub mod invite;
pub mod laws;
pub mod line;
pub mod local_event;
pub mod member;
