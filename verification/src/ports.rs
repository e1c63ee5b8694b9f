//! Data carried across the infrastructure boundaries (object storage and
//! notification delivery). The asynchronous port traits themselves live
//! with the adapters that implement them.

use vstd::prelude::*;

verus! {

/// Object metadata returned without loading the body.
#[derive(Debug, Clone, PartialEq, Eq)]
pub struct ObjectMetadata {
    /// Byte length.
    pub size: u64,
    /// Media type.
    pub content_type: String,
    /// SHA-256 hex digest.
    pub sha256: String,
    /// Extension-defined safe attributes, one entry per name
    /// (`entries_keyed_once`), as in the map they stand for.
    pub attributes: Vec<(String, String)>,
}

/// Notification delivery request.
#[derive(Debug, Clone, PartialEq, Eq)]
pub struct Notification {
    /// Stable template key.
    pub template: String,
    /// Recipient identity key.
    pub recipient: String,
    /// Safe template data, one entry per key (`entries_keyed_once`), as in
    /// the map it stands for; a reader takes the first entry with a key.
    pub data: Vec<(String, String)>,
    /// Deduplication key: the UUID's 128 bits.
    pub idempotency_key: u128,
}

/// The invariant of a list of named entries standing for a map: no name
/// occurs twice.
pub open spec fn entries_keyed_once(entries: Seq<(String, String)>) -> bool {
    forall|i: int, j: int| 0 <= i < j < entries.len() ==> (#[trigger] entries[i]).0@ != (#[trigger] entries[j]).0@
}

} // verus!
