//! An ordered map whose key order is supplied on every call as a probe
//! (a three-way comparator against one target key), with verified search,
//! insertion, removal, range, entry and cursor operations.
//!
//! The entries live in one ordered node, a vector kept in ascending key
//! order; handles and cursor positions are indices into it. Every contract
//! is stated over that sequence of entries (the map's view) and over the spec
//! functions that a caller's probe refines (see `order`).
use vstd::prelude::*;

pub mod order;
pub mod search;
pub mod map;
pub mod entry;
pub mod iter;
pub mod cursor;
pub mod bulk;
pub mod laws;

pub use map::BTreeMap;
pub use search::{IndexResult, NodeRef, SearchBound, SearchBoundCustom, SearchResult};
pub use entry::{Entry, OccupiedEntry, OccupiedError, VacantEntry};
pub use iter::{IntoIter, IntoKeys, IntoValues, Iter, IterMut, Keys, Range, RangeMut, Values, ValuesMut};
pub use cursor::{Cursor, CursorMut};

verus! {

} // verus!
