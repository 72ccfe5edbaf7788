//! An interpreter for a small dynamically-typed, stack-based scripting
//! language: source text is tokenized into whitespace-separated commands and
//! literals, and one evaluation loop executes them against an operand stack
//! and a global variable store. Failures are first-class Error values on the
//! stack, never exceptions, and a parallel block runs on a deep copy of the
//! whole interpreter state.
pub mod env;
pub mod eval;
pub mod host;
pub mod laws;
pub mod num;
pub mod strings;
pub mod tokenize;
pub mod value;
