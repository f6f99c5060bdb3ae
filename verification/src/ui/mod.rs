//! What the user sees and pastes.
pub mod clipboard;
pub mod help;
pub mod laws;
pub mod layout;
pub mod row_laws;
pub mod screen;
pub mod tui;
