//! Dial: the core of a small Scheme-family interpreter.  A reader turns
//! source text into a heap-allocated expression graph of `Object` values, and
//! a tree-walking evaluator reduces those expressions against a lexically
//! scoped chain of environment frames.  Every executable function is proved
//! against a specification counterpart: the evaluator against a
//! specification interpreter, the reader against a specification grammar,
//! and the printer against the canonical external representation.

pub mod builtins;
pub mod env;
pub mod error;
pub mod eval;
pub mod laws;
pub mod numeral;
pub mod object;
pub mod reader;
pub mod strutil;
