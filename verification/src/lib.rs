//! An incremental computation engine: a memoizing dataflow runtime that
//! versions computed values, tracks the dependencies each computation read,
//! reuses prior work when dependencies have not changed, deduplicates
//! requests for the same key, and cooperates with cancellation so that a
//! commit to the value store is atomic with respect to a cancel request.
//!
//! The engine itself is a sequential core: every decision it makes (cache
//! hit, dependency revalidation, fresh compute, commit or abandon) is a
//! verified function from the current state and an event to the next state
//! and an action. A driver (an executor, a thread pool) runs the loop
//! around it: it performs the user evaluations the engine asks for and
//! hands the results back.

pub mod versions;
pub mod history;
pub mod key;
pub mod value;
pub mod events;
pub mod task;
pub mod graph;
pub mod core_state;
pub mod evaluator;
pub mod incremental;
pub mod engine_map;
