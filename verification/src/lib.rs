//! A parser and interpreter core for a small language of numbered classes,
//! named functions and sequential operations.
//!
//! [`parser::program`] reads a source text once, as [`grammar`] says, and
//! gives the [`program::Program`] or the [`error::ParseError`]. A
//! [`machine::Machine`] then executes the top-level statements of the
//! program, one transition at a time. The machine writes nothing and knows
//! no arithmetic on numbers: after each transition it tells its host what to
//! write or what to compute, and takes the answer with the next transition.
//! [`laws`] holds what is proved of every source text and of every run.

pub mod error;
pub mod frame;
pub mod grammar;
pub mod laws;
pub mod machine;
pub mod parser;
pub mod program;
pub mod table;
pub mod text;
pub mod value;
