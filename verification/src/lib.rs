//! A checker and a guard for repositories that agents edit.
use vstd::prelude::*;

pub mod ast;
pub mod builtins;
pub mod check;
pub mod diagnostics;
pub mod event;
pub mod glob;
pub mod goal;
pub mod guard;
pub mod infer;
pub mod json;
pub mod names;
pub mod program;
pub mod readings;
pub mod snapshot;
pub mod span;
pub mod store;
pub mod term;
pub mod text;
pub mod types;
pub mod walk;

verus! {

} // verus!
