//! A small filtering language for routing mail: S-expression scripts are
//! parsed into statements, compiled to a stack machine, and run against one
//! message at a time to decide which copies to make and which labels to set.

pub mod value;
pub mod message;
pub mod sexp;
pub mod ast;
pub mod ir;
pub mod script;
pub mod laws;
pub mod text;
