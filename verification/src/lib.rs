//! An interpreter for Unlambda, a minimal combinator language with lazy
//! application, single-character I/O and first-class continuations.
//!
//! The crate offers three evaluators that agree with each other, together
//! with the persistent stack that backs reified continuations.

pub mod cli;
pub mod cps;
pub mod ctx;
pub mod drop;
pub mod laws;
pub mod metacircular;
pub mod model;
pub mod parser;
pub mod rc_stack;
pub mod rc_stack_simple;
pub mod shared;
pub mod small_step;
pub mod term;
pub mod text;

pub use ctx::Ctx;
pub use term::{EvalResult, Halt, Term};
