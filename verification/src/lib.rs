//! A small interpreter for a line-oriented language of type declarations,
//! assignments and integer arithmetic (negation, addition, subtraction).
//!
//! Every line is parsed on its own into a statement; the statements then run
//! in order against one environment of integer variables.

pub mod abs;
pub mod text;
pub mod parser;
pub mod eval;
pub mod source;
pub mod semantics;
