//! A verified row-transform engine: a user-supplied script is evaluated once
//! per record of a tabular dataset, either to compute new column values
//! ("map") or to decide whether a record is kept ("filter").  The engine
//! drives a BEGIN/MAIN/END script lifecycle over a sequential or a
//! random-access traversal, marshals dynamically-typed evaluation results
//! into output fields, and accounts for per-row failures against an error
//! budget.
//!
//! The script evaluator itself is an outside capability, reached through
//! the trusted session layer in [`session`]; everything the engine decides
//! from what the evaluator returns is verified, with contracts over the
//! session's recorded interaction history.
#![verifier::loop_isolation(false)]

pub mod budget;
pub mod engine;
pub mod hostfns;
pub mod phases;
pub mod session;
pub mod text;
pub mod util;
pub mod value;
