//! A stack-based bytecode interpreter for a small assembly-like language
//! with labels, calls, counted and conditional loops, and cooperative
//! logical threads that communicate through latched, named channels.
//!
//! A source program is one textual instruction per line.  The two-pass
//! loader in [`bytecode`] parses the lines through [`parse`] and resolves
//! the structural pairings; the instruction set lives in [`expr`], whose
//! dispatch is specified by a single step function; the round-robin
//! scheduler in [`interpreter`] runs the threads and is a proved refinement
//! of a turn-by-turn scheduler specification; [`laws`] states and proves
//! the general properties of the semantics.

pub mod bytecode;
pub mod expr;
pub mod interpreter;
pub mod laws;
pub mod names;
pub mod parse;
