//! A calendar refresh engine: which rooms are due for a refresh, how their
//! calendars are fetched under a bound on concurrency and a pause between
//! requests, how a fetch that asked for too much is retried on narrower
//! ranges, and what is removed from the store after a run.
//!
//! The engine decides; it performs no fetch, no query and no sleep. Its
//! caller carries out the actions it is told and reports what came of them.
use vstd::prelude::*;

pub mod pool;
pub mod proposed_edits;
pub mod refresh;
pub mod scheduler;
pub mod scrape_task;
pub mod selector;
pub mod stats;
pub mod task;
pub mod token;
pub mod utils;
