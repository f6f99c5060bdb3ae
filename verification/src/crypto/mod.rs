//! Key derivation, message encryption and the group epoch protocol.
pub mod aead;
pub mod chain;
pub mod delivery_laws;
pub mod derivation_laws;
pub mod epoch;
pub mod error;
pub mod error_laws;
pub mod group;
pub mod group_laws;
pub mod handshake;
pub mod invite;
pub mod laws;
pub mod membership;
pub mod messages;
pub mod room;
pub mod roster_laws;
pub mod safety;
pub mod safety_laws;
pub mod secure;
pub mod transport;
pub mod transport_laws;
