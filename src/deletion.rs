//! Deletion requests: which events they name, and whether each may go.
use vstd::prelude::*;

use crate::event::Event;

verus! {

/// What a search of the store by event id returned.
pub enum Lookup {
    /// No document has that id.
    Missing,
    /// The document was found in partition `index`, holding `event`.
    Found { index: String, event: Event },
    /// The search failed, or its answer could not be read.
    Failed,
}

/// Why a referenced event was not deleted.
#[derive(PartialEq, Eq, Structural, Clone, Copy, Debug)]
pub enum DeletionError {
    /// No stored event has the referenced id.
    NotFound,
    /// The stored event belongs to another author.
    Unauthorized,
    /// The store could not be searched.
    StoreError,
}

/// The partition to delete from, or why nothing is deleted.
pub open spec fn deletion_decision(claimed_author: Seq<char>, lookup: Lookup) -> Result<
    Seq<char>,
    DeletionError,
> {
    match lookup {
        Lookup::Missing => Err(DeletionError::NotFound),
        Lookup::Failed => Err(DeletionError::StoreError),
        Lookup::Found { index, event } => if event.pubkey@ == claimed_author {
            Ok(index@)
        } else {
            Err(DeletionError::Unauthorized)
        },
    }
}

pub open spec fn decision_view(r: Result<String, DeletionError>) -> Result<Seq<char>, DeletionError> {
    match r {
        Ok(s) => Ok(s@),
        Err(e) => Err(e),
    }
}

/// A tag that references an event: key `e` followed by the event id.
pub open spec fn is_event_reference(tag: Vec<String>) -> bool {
    tag@.len() >= 2 && tag@[0]@ == seq!['e']
}

/// The ids referenced by a tag list, in order.
pub open spec fn referenced_ids(tags: Seq<Vec<String>>) -> Seq<Seq<char>>
    decreases tags.len(),
{
    if tags.len() == 0 {
        Seq::empty()
    } else if is_event_reference(tags.last()) {
        referenced_ids(tags.drop_last()).push(tags.last()@[1]@)
    } else {
        referenced_ids(tags.drop_last())
    }
}

fn same_text(a: &str, b: &str) -> (r: bool)
    ensures
        r == (a@ == b@),
{
    let n = a.unicode_len();
    if n != b.unicode_len() {
        return false;
    }
    let mut i: usize = 0;
    while i < n
        invariant
            n == a@.len(),
            n == b@.len(),
            i <= n,
            forall|j: int| 0 <= j < i ==> a@[j] == b@[j],
        decreases n - i,
    {
        if a.get_char(i) != b.get_char(i) {
            return false;
        }
        i += 1;
    }
    assert(a@ =~= b@);
    true
}

/// The ids of the events that a deletion request references, in the order
/// of its tags.
pub fn deletion_targets(event: &Event) -> (r: Vec<String>)
    ensures
        r@.map_values(|s: String| s@) == referenced_ids(event.tags@),
{
    let tags = &event.tags;
    let mut out: Vec<String> = Vec::new();
    let mut i: usize = 0;
    let e = "e";
    proof {
        reveal_strlit("e");
    }
    while i < tags.len()
        invariant
            i <= tags@.len(),
            tags == &event.tags,
            e@ == seq!['e'],
            out@.map_values(|s: String| s@) == referenced_ids(tags@.take(i as int)),
        decreases tags@.len() - i,
    {
        assert(tags@.take(i + 1).drop_last() =~= tags@.take(i as int));
        let t = &tags[i];
        if t.len() >= 2 && same_text(t[0].as_str(), e) {
            let ghost before = out@;
            out.push(t[1].clone());
            assert(out@.map_values(|s: String| s@) =~= before.map_values(|s: String| s@).push(
                t@[1]@,
            ));
        }
        i += 1;
    }
    assert(tags@.take(tags@.len() as int) =~= tags@);
    out
}

/// Decides one reference of a deletion request from what the search for it
/// returned: the partition to delete the document from when the stored event
/// belongs to `claimed_author`, `Unauthorized` when it belongs to someone
/// else, `NotFound` or `StoreError` when the search found nothing or failed.
pub fn authorize_deletion(claimed_author: &str, lookup: &Lookup) -> (r: Result<String, DeletionError>)
    ensures
        decision_view(r) == deletion_decision(claimed_author@, *lookup),
{
    match lookup {
        Lookup::Missing => Err(DeletionError::NotFound),
        Lookup::Failed => Err(DeletionError::StoreError),
        Lookup::Found { index, event } => {
            if same_text(event.pubkey.as_str(), claimed_author) {
                Ok(index.clone())
            } else {
                Err(DeletionError::Unauthorized)
            }
        },
    }
}

/// Decides every reference of a deletion request, each from its own lookup
/// alone: a reference that is missing, refused or failed does not change
/// the decision on any other.
pub fn decide_deletions(claimed_author: &str, lookups: &Vec<Lookup>) -> (r: Vec<
    Result<String, DeletionError>,
>)
    ensures
        r@.len() == lookups@.len(),
        forall|i: int|
            0 <= i < lookups@.len() ==> decision_view(#[trigger] r@[i]) == deletion_decision(
                claimed_author@,
                lookups@[i],
            ),
{
    let mut out: Vec<Result<String, DeletionError>> = Vec::new();
    let mut i: usize = 0;
    while i < lookups.len()
        invariant
            i <= lookups@.len(),
            out@.len() == i,
            forall|j: int|
                0 <= j < i ==> decision_view(#[trigger] out@[j]) == deletion_decision(
                    claimed_author@,
                    lookups@[j],
                ),
        decreases lookups@.len() - i,
    {
        out.push(authorize_deletion(claimed_author, &lookups[i]));
        i += 1;
    }
    out
}

} // verus!
