//! A compiler front-end and execution engine for a minimal stack-based
//! language whose entire surface syntax consists of three whitespace
//! characters: space, tab, and linefeed. Every other character is ignored.
//!
//! The crate lexes source text into a token stream, parses it into a
//! structured program, and executes the program on a stack machine with an
//! address-indexed heap, labeled control transfer, a call/return discipline,
//! and console I/O surfaced as effects for the caller to perform.

pub mod ast;
pub mod machine;
pub mod parser;
pub mod tokens;
