//! Event kinds and the pipeline each one is routed to.
use vstd::prelude::*;

use crate::event::Event;

verus! {

/// Profile metadata: the content is a JSON object of string fields.
pub const METADATA: u64 = 0;

/// A short text note.
pub const TEXT_NOTE: u64 = 1;

/// The author's contact list.
pub const CONTACT_LIST: u64 = 3;

/// A request to delete earlier events of the same author.
pub const EVENT_DELETION: u64 = 5;

/// Metadata of a public channel.
pub const CHANNEL_METADATA: u64 = 41;

/// First kind of the range reserved for replaceable events.
pub const REPLACEABLE_START: u64 = 10000;

/// End (exclusive) of the range reserved for replaceable events.
pub const REPLACEABLE_END: u64 = 20000;

/// Long-form text content.
pub const LONG_FORM_TEXT_NOTE: u64 = 30023;

/// Which pipeline an event goes through.
#[derive(PartialEq, Eq, Structural, Clone, Copy, Debug)]
pub enum Route {
    /// Mapped to a document and written to its partition.
    Upsert,
    /// Treated as a deletion request.
    Delete,
    /// Dropped without any effect.
    Ignore,
}

/// Kinds whose content is plain text, indexed verbatim.
pub open spec fn is_text_kind(kind: u64) -> bool {
    kind == TEXT_NOTE || kind == LONG_FORM_TEXT_NOTE
}

/// Kinds of which only the newest per author should stay queryable.
pub open spec fn is_replaceable_kind(kind: u64) -> bool {
    kind == METADATA || kind == CONTACT_LIST || kind == CHANNEL_METADATA || (
    REPLACEABLE_START <= kind && kind < REPLACEABLE_END)
}

pub open spec fn route_of(kind: u64) -> Route {
    if kind == METADATA || is_text_kind(kind) {
        Route::Upsert
    } else if kind == EVENT_DELETION {
        Route::Delete
    } else {
        Route::Ignore
    }
}

/// Routes an event by its kind: profile metadata and text content are
/// upserted, deletion requests are honoured, everything else is ignored.
pub fn classify(kind: u64) -> (r: Route)
    ensures
        r == route_of(kind),
{
    if kind == METADATA || kind == TEXT_NOTE || kind == LONG_FORM_TEXT_NOTE {
        Route::Upsert
    } else if kind == EVENT_DELETION {
        Route::Delete
    } else {
        Route::Ignore
    }
}

/// Whether the event is of a kind where a newer event replaces older ones
/// of the same author.
pub fn is_replaceable_event(event: &Event) -> (r: bool)
    ensures
        r == is_replaceable_kind(event.kind),
{
    let k = event.kind;
    k == METADATA || k == CONTACT_LIST || k == CHANNEL_METADATA || (REPLACEABLE_START <= k && k
        < REPLACEABLE_END)
}

/// Whether the event's content is plain text.
pub fn is_text_event(event: &Event) -> (r: bool)
    ensures
        r == is_text_kind(event.kind),
{
    event.kind == TEXT_NOTE || event.kind == LONG_FORM_TEXT_NOTE
}

} // verus!
