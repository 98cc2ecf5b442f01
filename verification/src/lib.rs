//! Editing engine of a character-grid editor: a text buffer addressed by
//! display columns with an undo log, selection markers, a clipboard of
//! captured cells, and a resolver for chorded key bindings.

pub mod width;
pub mod text;
pub mod buffer;
pub mod round_trip;
pub mod fill;
pub mod fill_uniform;
pub mod marker;
pub mod clipboard;
pub mod editor_command;
pub mod key_input;
pub mod keybinding;
pub mod bindings_build;
pub mod offers;
pub mod config;
pub mod editor;
pub mod save_load;
pub mod widgets;
