//! Tracing infrastructure: a tunnel for tracing events across an API boundary,
//! a consumer relaying such events, and capturing of spans and events for assertions.
use vstd::prelude::*;

pub mod text;
pub mod types;
pub mod values;
pub mod consumer;
pub mod arena;
pub mod normalize;
pub mod capture;
pub mod hierarchy;
pub mod labels;
pub mod metrics;
pub mod recorder;
pub mod predicates;
pub mod sync;

verus! {

} // verus!
