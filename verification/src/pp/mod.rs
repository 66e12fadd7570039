//! C preprocessing: literal decoding, tokens, options, dependency records and
//! rendering.

pub mod condition;
pub mod conditional;
pub mod define;
pub mod directive;
pub mod diagnostic;
pub mod engine;
pub mod files;
pub mod lexer;
pub mod line;
pub mod normalize;
pub mod literal;
pub mod macros;
pub mod options;
pub mod pragma;
pub mod predicates;
pub mod token;
pub mod render;
pub mod search;
pub mod substitute;
pub mod arguments;
pub mod dynamic;
pub mod nesting;
pub mod expand;
pub mod lines;
