//! Renders a Lua 5.2 syntax tree as indented source text, with the rendering
//! stated as a mathematical function of the tree and proved of the code.

pub mod lua_5_2;
