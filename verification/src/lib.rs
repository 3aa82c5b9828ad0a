//! An embeddable engine for incremental-search launchers: it pulls candidate
//! items from registered producers, filters and sorts them against the live
//! query string, and exposes the growing, always-sorted result set through a
//! pull-based pagination protocol.

use vstd::prelude::*;

pub mod action;
pub mod batcher;
pub mod filter;
pub mod generator;
pub mod laws;
pub mod pure;
pub mod sorter;
pub mod source;
pub mod ui;

verus! {

/// Errors reported by the engine to its caller.
#[derive(Debug, Clone, Copy, PartialEq, Eq, Structural)]
pub enum EngineError {
    /// The engine was driven through `prepare` before a projection
    /// (item-to-UI mapping) was registered.
    ProjectionNotSet,
    /// A final extraction was requested with an id that exceeds the
    /// item count of the store.
    IndexOutOfRange,
}

} // verus!
