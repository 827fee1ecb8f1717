//! The Raven tokenizer.

pub mod code_tokenizer;
pub mod tokenizer;
pub mod tokens;
pub mod util;
