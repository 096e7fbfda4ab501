//! Rewrites postfix macro invocations, `receiver.name!(args)`, into ordinary
//! prefix invocations, `name!(receiver, args)`, on an already lexed and
//! bracket-matched token sequence.
//!
//! - [`token`] holds the tokens and their mathematical values.
//! - [`scan`] finds, walking backward from an invocation, the tokens that
//!   form its receiver.
//! - [`splice`] puts a receiver before the arguments of a macro.
//! - [`rewrite`] walks a sequence, groups within groups, and rewrites every
//!   invocation in it.
//! - [`laws`] states what holds of scanner and rewriter on every input.
//! - [`error`] names the ways in which scanning and rewriting fail.

pub mod error;
pub mod laws;
pub mod rewrite;
pub mod scan;
pub mod splice;
pub mod token;

pub use crate::rewrite::postfix_macros;
