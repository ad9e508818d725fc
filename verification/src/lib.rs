//! Minimal primitives for revision-based state synchronization.
//!
//! The shared vocabulary of an invalidation-pull protocol: a [`Revision`]
//! counter, a [`SnapshotEnvelope`] for transporting state, an
//! [`InvalidationEvent`] for signalling changes, and [`compare_revisions`],
//! the order of revisions carried as decimal text.

pub mod compare;
pub mod decimal;
pub mod envelope;
pub mod revision;

pub use compare::compare_revisions;
pub use envelope::{InvalidationEvent, SnapshotEnvelope};
pub use revision::{InvalidRevisionText, Revision};
