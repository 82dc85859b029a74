//! A terminal markdown viewer's core: markdown-to-lines rendering with boxed code blocks and
//! tables, and the viewer state (scrolling, searching, key handling).

pub mod style;
pub mod events;
pub mod markdown;
pub mod code_block;
pub mod table;
pub mod app;
pub mod theme;
