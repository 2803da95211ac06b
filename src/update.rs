//! The upsert pipeline: from an event to the write the store should perform.
use vstd::prelude::*;

use crate::event::{Document, Event};
use crate::kind::{is_replaceable_event, is_replaceable_kind};
use crate::partition::{can_exist, index_name_for_event, partition_name, writable, IndexError};
use crate::store::{after_upsert, lemma_upsert_idempotent};
use crate::tags::{convert_tags, tag_index};
use crate::text::{extract_text, text_of};

verus! {

/// Retention window applied to partitions: how many days back and how many
/// days ahead of now a partition may be written.
#[derive(PartialEq, Eq, Structural, Clone, Copy, Debug)]
pub struct Retention {
    pub ttl_in_days: u64,
    pub allow_future_days: u64,
}

/// What to do with an event routed to the upsert pipeline.
pub enum UpdatePlan {
    /// The event has no partition; it is dropped.
    Dropped(IndexError),
    /// The partition lies outside the retention window; the event is skipped.
    OutOfRange { index: String },
    /// Upsert `document` into partition `index` under the event id; when
    /// `purge_older` is set, then delete, across all partitions, every document
    /// of the same author and kind created before the event.
    Write { index: String, document: Document, purge_older: bool },
}

/// The store after the plan was carried out.
pub open spec fn after_plan(
    store: Map<(Seq<char>, Seq<char>), Event>,
    plan: UpdatePlan,
) -> Map<(Seq<char>, Seq<char>), Event> {
    match plan {
        UpdatePlan::Write { index, document, .. } => after_upsert(store, index@, document.event),
        _ => store,
    }
}

/// Carrying out the same plan twice, as when an event is delivered again,
/// leaves the store as carrying it out once.
pub proof fn lemma_plan_idempotent(store: Map<(Seq<char>, Seq<char>), Event>, plan: UpdatePlan)
    ensures
        after_plan(after_plan(store, plan), plan) == after_plan(store, plan),
{
    if let UpdatePlan::Write { index, document, .. } = plan {
        lemma_upsert_idempotent(store, index@, document.event);
    }
}

/// Plans the upsert of an event at time `now` (Unix seconds): the event is
/// dropped when its timestamp has no partition, skipped when that partition
/// is outside the retention window, and otherwise written as a document with
/// its text and tag index, followed by the removal of older documents of the
/// same author and kind when the kind is replaceable.
pub fn plan_update(prefix: &str, event: Event, now: i64, retention: Retention) -> (r: UpdatePlan)
    ensures
        match partition_name(prefix@, event.created_at) {
            None => r matches UpdatePlan::Dropped(e) && e == IndexError::InvalidTimestamp,
            Some(name) => if writable(
                name,
                now,
                retention.ttl_in_days,
                retention.allow_future_days,
            ) == Ok::<bool, IndexError>(true) {
                r matches UpdatePlan::Write { index, document, purge_older } && index@ == name
                    && document.event == event && document.text@ == text_of(
                    event.kind,
                    event.content@,
                ) && document.tags.wf() && document.tags@ == tag_index(event.tags@)
                    && purge_older == is_replaceable_kind(event.kind)
            } else {
                r matches UpdatePlan::OutOfRange { index } && index@ == name
            },
        },
{
    let index = match index_name_for_event(prefix, &event) {
        Ok(name) => name,
        Err(e) => {
            return UpdatePlan::Dropped(e);
        },
    };
    let ok = match can_exist(index.as_str(), now, retention.ttl_in_days, retention.allow_future_days) {
        Ok(b) => b,
        Err(_) => false,
    };
    if !ok {
        return UpdatePlan::OutOfRange { index };
    }
    let text = extract_text(&event);
    let tags = convert_tags(&event.tags);
    let purge_older = is_replaceable_event(&event);
    UpdatePlan::Write { index, document: Document { event, text, tags }, purge_older }
}

} // verus!
