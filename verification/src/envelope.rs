//! The two messages of the protocol: the snapshot envelope and the
//! invalidation event. Both carry a revision as canonical decimal text.

use crate::revision::{is_revision_text, Revision};
use vstd::prelude::*;

verus! {

/// A snapshot envelope carrying state data alongside its revision.
///
/// The `data` field is generic and means nothing to this crate.
#[derive(Debug, Clone, PartialEq, Eq)]
pub struct SnapshotEnvelope<T> {
    /// String representation of the revision (canonical `u64` decimal).
    pub revision: String,
    /// The state payload.
    pub data: T,
}

/// An invalidation event emitted when state changes.
///
/// A consumer pulls a fresh snapshot when the announced revision is newer
/// than the one it has.
#[derive(Debug, Clone, PartialEq, Eq)]
pub struct InvalidationEvent {
    /// Topic identifier (e.g. `"settings"`, `"user_profile"`).
    pub topic: String,
    /// String representation of the new revision.
    pub revision: String,
}

impl<T> SnapshotEnvelope<T> {
    /// The envelope's `revision` is the canonical text of some revision.
    pub open spec fn well_formed(&self) -> bool {
        is_revision_text(self.revision@)
    }

    /// Pair a state payload with the revision it was captured at.
    pub fn new(revision: Revision, data: T) -> (e: Self)
        ensures
            e.revision@ == revision.text(),
            e.data == data,
            e.well_formed(),
    {
        proof {
            revision.lemma_text_denotes_value();
        }
        SnapshotEnvelope { revision: revision.to_string(), data }
    }
}

impl InvalidationEvent {
    /// The event's `revision` is the canonical text of some revision.
    pub open spec fn well_formed(&self) -> bool {
        is_revision_text(self.revision@)
    }

    /// Announce that `topic` has moved to `revision`.
    pub fn new(topic: String, revision: Revision) -> (e: Self)
        ensures
            e.topic@ == topic@,
            e.revision@ == revision.text(),
            e.well_formed(),
    {
        proof {
            revision.lemma_text_denotes_value();
        }
        InvalidationEvent { topic, revision: revision.to_string() }
    }
}

} // verus!
