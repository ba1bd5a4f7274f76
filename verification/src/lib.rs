//! The pane's decisions, apart from the terminal it draws on.

pub mod event;
pub mod input;
pub mod menu;
pub mod positions;
pub mod text;
pub mod env;
pub mod colour;
pub mod glyphs;
pub mod clipboard;
pub mod icons;
pub mod quote;
pub mod config;
pub mod render;
pub mod shell;
pub mod notes;
pub mod memory;
pub mod reread;
pub mod pane;
pub mod post;
pub mod scroll;
pub mod printable;
pub mod mcp;
