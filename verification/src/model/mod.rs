//! Pure editing model: buffer, positions, selections, movement, search, undo.

pub mod unicode;
pub mod position;
pub mod selection;
pub mod buffer;
pub mod undo;
pub mod movement;
pub mod search;
pub mod editor;
pub mod laws;
