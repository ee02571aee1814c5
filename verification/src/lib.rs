//! A verified interpreter for additive integer expressions.
//!
//! The library evaluates a line of text of the form
//! `integer (('+' | '-') integer)*`: one decimal literal followed by zero or
//! more operator/literal pairs, folded left to right.  The lexer skips
//! whitespace between tokens; any other character is a lexing error.  A
//! literal or a running result that does not fit in an `i32` is reported as
//! an overflow error rather than wrapped.  A single literal with no operator
//! is a valid expression and evaluates to itself.
//!
//! The meaning of every input is fixed by the specification functions in
//! [`semantics`], and [`Interpreter::expr`] is proved to return exactly what
//! they say, for every input.

pub mod interpreter;
pub mod laws;
pub mod semantics;
pub mod token;

pub use interpreter::CalcError;
pub use interpreter::Interpreter;
pub use interpreter::evaluate;
pub use token::Token;
pub use token::TokenType;
