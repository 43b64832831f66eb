//! A small modal text editor core: buffer editing, key handling, recent-file
//! history, configuration defaults and screen layout, with their contracts.

pub mod config;
pub mod editor;
pub mod files;
pub mod history;
pub mod laws;
pub mod paths;
pub mod picker;
pub mod prompt;
pub mod screen;
pub mod text;
