//! Tracking of web-serial reading progress: chapter numbers, tracked entries,
//! extraction of the latest chapter from a series page, reconciliation of
//! record sets, URL repair heuristics and the tabular store format.
use vstd::prelude::*;

pub mod chapter;
pub mod text;
pub mod models;
pub mod reconcile;
pub mod page;
pub mod batch;
pub mod urls;
pub mod paths;
pub mod store;
pub mod commands;

verus! {

} // verus!
