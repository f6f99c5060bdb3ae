//! Text, ordering and association-list helpers.
pub mod codec;
pub mod id_map;
pub mod json;
pub mod laws;
pub mod order;
pub mod path;
pub mod text;
