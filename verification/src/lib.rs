//! Control-flow graphs of program methods, built from their syntax trees.

pub mod attr_types;
pub mod cfg;
pub mod codec;
pub mod db;
pub mod messages;
pub mod server;
