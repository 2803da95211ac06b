//! Events as delivered by the event source, and the documents stored for them.
use vstd::prelude::*;

use crate::tags::TagIndex;

verus! {

/// A signed, immutable event, held as plain values.
pub struct Event {
    /// Content-derived identifier, hex encoded.
    pub id: String,
    /// Author key, hex encoded.
    pub pubkey: String,
    /// Seconds since the Unix epoch.
    pub created_at: u64,
    /// Semantic kind of the event.
    pub kind: u64,
    /// Opaque content; its meaning depends on `kind`.
    pub content: String,
    /// Ordered tags, each an ordered list of strings whose first one is its key.
    pub tags: Vec<Vec<String>>,
    /// Signature, carried along and never interpreted.
    pub sig: String,
}

/// The stored projection of an event: the event itself, its searchable text
/// and its index of single-character tags.
pub struct Document {
    pub event: Event,
    pub text: String,
    pub tags: TagIndex,
}

} // verus!
