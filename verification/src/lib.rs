//! A deterministic process engine: compiled process laws decide which
//! transition a process instance may take next.
use vstd::prelude::*;

pub mod json;
pub mod number;
pub mod types;
pub mod error;
pub mod text;
pub mod schema;
pub mod law;
pub mod registry;
pub mod manifest;
pub mod graph;
pub mod validate;
pub mod digest;
pub mod compile;
pub mod runtime;
pub mod kernel;

verus! {
}
