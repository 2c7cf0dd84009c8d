//! An interpreter for a small stack language in which every operation is
//! directed at one of the two ends of a single double-ended value stack.
//!
//! Source text runs through three stages: [`lexer`] turns it into tokens,
//! [`parser`] builds a sided syntax tree, and [`evaluator`] walks that tree
//! against the shared stack.  Floats travel as IEEE-754 bit patterns; the
//! instruction table covers the stack, cast, arithmetic, comparison,
//! logical, list, control-flow and input/output families, but not the
//! transcendental `exp` and `log`, which report an unknown instruction.
pub mod evaluator;
pub mod laws;
pub mod floats;
pub mod lexer;
pub mod numtext;
pub mod parser;
pub mod render;
pub mod semantics;
pub mod strutil;
pub mod values;
