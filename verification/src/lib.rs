//! Layout and styling logic of a vertical tab sidebar for a terminal
//! multiplexer: colour and style parsing, tmux-like format strings, width-aware
//! truncation, the visible window of tabs, and the plugin's state machine.

pub mod text;
pub mod color;
pub mod style;
pub mod format;
pub mod layout;
pub mod config;
pub mod commands;
pub mod model;
pub mod render;
pub mod state;
