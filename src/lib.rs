//! Lazy deduplicating adapters over an owned source of items.
//!
//! Four strategies are offered, each in three variants (plain equality, a
//! caller-supplied equivalence predicate, and equality of a derived key):
//! - [`dedup`]: only runs of adjacent equivalent items collapse, the last of
//!   each run stays;
//! - [`hashable`], [`ordable`], [`noncon`]: equivalent items collapse across the
//!   whole sequence, the first of each stays, tracked in a hash set, an ordered
//!   set or a plain list.
//!
//! What each adapter yields is stated over the spec functions of [`model`];
//! [`laws`] proves what holds of them on every input.
pub mod model;
pub mod dedup;
pub mod hashable;
pub mod laws;
pub mod noncon;
pub mod ordable;
