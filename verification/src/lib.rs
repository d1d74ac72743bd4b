//! A verified one-line calculator.
//!
//! One line of text holding two numeric operands around a single binary
//! operator (`+`, `-`, `*`, `/`) is evaluated to an integer result or a
//! categorised failure, and rendered as a human-readable message.
pub mod arith;
pub mod eval;
pub mod laws;
pub mod number;
pub mod outcome;
pub mod split;
pub mod text;
