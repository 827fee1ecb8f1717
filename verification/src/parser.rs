//! The Raven parser.

pub mod code_parser;
pub mod control_parser;
pub mod operator_parser;
pub mod top_parser;
pub mod util;
