//! A terminal text editor's core: a text buffer with line structure, cursor
//! movement, editing, search and replace, paragraph justification, soft-wrap
//! layout, prompts and configuration handling.
pub mod lines;
pub mod rope;
pub mod text;
pub mod behaviour;
pub mod browser;
pub mod config;
pub mod highlight;
pub mod cycle;
pub mod editor;
pub mod justify;
pub mod keys;
pub mod laws;
pub mod render;
pub mod search;
pub mod session;
pub mod wrap;
pub mod input;
pub mod ui;
