//! coda: the verified core of a keymap-first terminal text editor.
//!
//! - `model`: the text buffer, positions and selections, cursor movement,
//!   search, the undo history and the editor facade, with the properties
//!   that span its commands in `model::laws`.
//! - `overlay`, `view`, `session`, `key`: the state machines the terminal
//!   front end drives (prompt, palette, search, inspector and panels), the
//!   viewport, quit and save confirmations, and the key events they read.
//! - `document`, `workspace`, `dispatch`, `mouse`: the open documents, and
//!   what an editor action or a mouse event does to them and to the overlays.
//! - `editor_draw` and the overlays' `rows`: what the editor area, the tab
//!   bar and each panel put on the screen, as texts with cells and styles.
//! - `verify`: the `keymap verify` chord measurement.
//! - `cli`, `settings`, `theme`, `clipboard`, `text`: argument routing, the
//!   settings file, the color theme, OSC 52 clipboard writes and shared text
//!   utilities.

pub mod model;
pub mod text;
pub mod clipboard;
pub mod session;
pub mod key;
pub mod overlay;
pub mod view;
pub mod theme;
pub mod cli;
pub mod settings;
pub mod document;
pub mod workspace;
pub mod dispatch;
pub mod mouse;
pub mod verify;
pub mod editor_draw;
