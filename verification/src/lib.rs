//! Verified core of an interactive shell front end: line editing, shell-word
//! parsing and completion, terminal output filtering, history splitting and
//! the small policies around them.
pub mod text;
pub mod input;
pub mod completion;
pub mod config;
pub mod templates;
pub mod history;
pub mod picker;
pub mod git_remote;
pub mod env_name;
pub mod modes;
pub mod keybindings;
pub mod display_width;
pub mod paste;
pub mod log;
pub mod context;
pub mod editor;
pub mod encryption;
pub mod encrypted_writer;
pub mod pty;
