//! The data model shared by the parser and the checker.

pub mod async_util;
pub mod code;
pub mod errors;
pub mod function;
pub mod syntax;
pub mod types;
