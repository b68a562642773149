//! Core model of a deck-based card game client: the screen state machine,
//! the deck-selection and current-run data, pagination over deck grids,
//! board layout arithmetic, and the codec for the three persisted JSON
//! documents (deck catalog, enabled-deck set, current-run save).
//!
//! Rendering, input devices and the file system are left to the caller:
//! every function here works on plain values and states exactly what it
//! does to them.

pub mod decks;
pub mod json;
pub mod layout;
pub mod page;
pub mod settings;
pub mod state;
