//! State machines of the editor's overlays: the prompt, the command palette,
//! search and replace, the key inspector, and the warning and info panels.

pub mod prompt;
pub mod palette;
pub mod palette_box;
pub mod which_key;
pub mod wrap;
pub mod warnings;
pub mod info;
pub mod inspector;
pub mod search;
