//! A keyboard-driven launcher core: a tree of named commands bound to key
//! chords, the chord grammar, command templates with `{{name}}` placeholders,
//! and the navigation state machine that a user interface drives.

pub mod bindings;
pub mod variables;
pub mod template;
pub mod commands;
pub mod window_position;
pub mod config;
pub mod state;
pub mod view;
