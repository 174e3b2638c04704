//! The syntax tree of a method, as the builder reads it.

pub mod ast_node;
pub mod message;
pub mod mixins;
