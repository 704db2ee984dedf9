//! Manifest and deletion-vector rewrite engine for an open-table-format
//! snapshot: classifies existing manifest entries, reconciles deletion
//! vectors against newly written archive blobs and removal sets, and
//! produces the contents of a replacement manifest list.
//!
//! `model` holds the plain data the engine works on and the error
//! taxonomy; `classify` maps (content kind, file format) pairs to entry
//! kinds; `numeric` parses the decimal blob properties; `records`
//! builds manifest records from blob metadata; `reconcile` keeps at
//! most one deletion vector per referenced data file; `rewrite` is the
//! single-pass orchestrator; `laws` states and proves the pass's
//! invariants; `fault` holds the verified decisions of the
//! fault-injecting storage decorator that tests storage behaviour.

use vstd::prelude::*;

pub mod model;
pub mod classify;
pub mod numeric;
pub mod records;
pub mod reconcile;
pub mod rewrite;
pub mod laws;
pub mod fault;

verus! {

} // verus!
