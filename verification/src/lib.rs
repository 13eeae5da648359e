//! A tokenizer for JavaScript-family source text.

pub mod code_iter;
pub mod comment;
pub mod diagnostic;
pub mod escape_chars;
pub mod ident;
pub mod lexer;
pub mod num;
pub mod operator;
pub mod punctuation;
pub mod regex;
pub mod string;
pub mod template;
pub mod token;
pub mod utils;

pub use lexer::tokenize;
pub use token::Token;
