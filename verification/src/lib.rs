//! A verified core for a two-notation arithmetic calculator.
//!
//! The crate turns a line of text into the sequence of numeric requests
//! that evaluates it, either from infix notation (tokenizer, shunting-yard
//! conversion, postfix evaluation) or from prefix notation. Numbers travel
//! through the crate as the 64 bits of an IEEE-754 double; the arithmetic on
//! those bits is performed by the caller, one request at a time.

pub mod common;
pub mod constants;
pub mod error;
pub mod infix;
pub mod literal;
pub mod operation;
pub mod polish;
pub mod progress;
pub mod rpn;
pub mod shunting_yard;
pub mod token;
pub mod tokenizer;
pub mod tree;

pub use error::Error;
pub use shunting_yard::precedence;
pub use token::Token;
