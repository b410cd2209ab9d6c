//! A benchmark harness core for the PACE dominating-set challenge: parsing
//! of instances and solutions, feasibility checking, a reference greedy
//! solver, bounded-parallelism scheduling, the local body store, and the
//! bookkeeping of one run.
use vstd::prelude::*;

pub mod arguments;
pub mod commands;
pub mod directory;
pub mod download;
pub mod executor;
pub mod greedy;
pub mod ids;
pub mod instlist;
pub mod job;
pub mod meta;
pub mod pace;
pub mod runner;
pub mod schedule;
pub mod settings;
pub mod solution;
pub mod store;
pub mod summary;
pub mod text;
pub mod upload;

pub use upload::is_score_good_enough_for_upload;
