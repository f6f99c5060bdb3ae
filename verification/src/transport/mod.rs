//! Packets over the encrypted connection, and their acknowledgements.
pub mod heartbeat;
pub mod packet;
