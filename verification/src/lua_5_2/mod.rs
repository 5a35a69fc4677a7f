//! Lua 5.2: the syntax tree, the text that it stands for, and the renderer.

pub mod ast;
pub mod conditional;
pub mod content;
pub mod extent;
pub mod gen;
pub mod layout;
pub mod lines;
pub mod text;
