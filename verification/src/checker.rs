//! The Raven type checker.

pub mod check_code;
pub mod check_function;
pub mod output;
