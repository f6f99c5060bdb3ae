//! Attachments: their kinds, their storage, sending and receiving.
pub mod kind;
pub mod laws;
pub mod receiver;
pub mod sender;
pub mod store;
pub mod transfer_laws;
