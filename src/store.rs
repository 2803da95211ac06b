//! What the store's write operations do to its documents, and the laws that
//! the pipeline's writes and deletions obey.
use vstd::prelude::*;

use crate::deletion::{deletion_decision, DeletionError, Lookup};
use crate::event::Event;
use crate::kind::is_replaceable_kind;

verus! {

/// A document of `event` is superseded by a newer event of `pubkey` and
/// `kind` that was created at `before`.
pub open spec fn superseded(event: Event, pubkey: Seq<char>, kind: u64, before: u64) -> bool {
    event.pubkey@ == pubkey && event.kind == kind && event.created_at < before
}

/// The store after a delete-by-query that removes every document of
/// `pubkey` and `kind` created before `before`, across all partitions.
pub open spec fn purge_older(
    store: Map<(Seq<char>, Seq<char>), Event>,
    pubkey: Seq<char>,
    kind: u64,
    before: u64,
) -> Map<(Seq<char>, Seq<char>), Event> {
    Map::new(
        |k: (Seq<char>, Seq<char>)| store.contains_key(k) && !superseded(store[k], pubkey, kind, before),
        |k: (Seq<char>, Seq<char>)| store[k],
    )
}

/// The store, keyed by partition and event id, after the upsert of `event`
/// into partition `index`, followed by the removal of what it supersedes
/// when its kind is replaceable.
pub open spec fn after_upsert(
    store: Map<(Seq<char>, Seq<char>), Event>,
    index: Seq<char>,
    event: Event,
) -> Map<(Seq<char>, Seq<char>), Event> {
    let written = store.insert((index, event.id@), event);
    if is_replaceable_kind(event.kind) {
        purge_older(written, event.pubkey@, event.kind, event.created_at)
    } else {
        written
    }
}

/// The store after a deletion request for `target` by `claimed_author` was
/// decided on the result of the lookup.
pub open spec fn after_deletion(
    store: Map<(Seq<char>, Seq<char>), Event>,
    claimed_author: Seq<char>,
    target: Seq<char>,
    lookup: Lookup,
) -> Map<(Seq<char>, Seq<char>), Event> {
    match deletion_decision(claimed_author, lookup) {
        Ok(index) => store.remove((index, target)),
        Err(_) => store,
    }
}

/// Upserting the same event twice leaves the store as upserting it once:
/// one document under the event's id in its partition, holding the event.
pub proof fn lemma_upsert_idempotent(
    store: Map<(Seq<char>, Seq<char>), Event>,
    index: Seq<char>,
    event: Event,
)
    ensures
        after_upsert(after_upsert(store, index, event), index, event) == after_upsert(
            store,
            index,
            event,
        ),
        after_upsert(store, index, event).contains_key((index, event.id@)),
        after_upsert(store, index, event)[(index, event.id@)] == event,
{
    let once = after_upsert(store, index, event);
    assert(once.insert((index, event.id@), event) =~= once);
    if is_replaceable_kind(event.kind) {
        assert(purge_older(once, event.pubkey@, event.kind, event.created_at) =~= once);
    }
}

/// Once a replaceable event is upserted, no document of the same author and
/// kind that is older than it remains, in any partition, whatever the
/// store held before; the event itself stays.
pub proof fn lemma_newest_replaceable_remains(
    store: Map<(Seq<char>, Seq<char>), Event>,
    index: Seq<char>,
    event: Event,
)
    requires
        is_replaceable_kind(event.kind),
    ensures
        forall|k: (Seq<char>, Seq<char>)|
            #[trigger] after_upsert(store, index, event).contains_key(k) ==> !superseded(
                after_upsert(store, index, event)[k],
                event.pubkey@,
                event.kind,
                event.created_at,
            ),
        after_upsert(store, index, event).contains_key((index, event.id@)),
{
}

/// Given an earlier event `a` and a later replaceable event `b` of the same
/// author and kind, once both are upserted in that order no document of `a`'s
/// author, kind and creation time remains.
pub proof fn lemma_older_replaceable_removed(
    store: Map<(Seq<char>, Seq<char>), Event>,
    index_a: Seq<char>,
    a: Event,
    index_b: Seq<char>,
    b: Event,
)
    requires
        a.pubkey@ == b.pubkey@,
        a.kind == b.kind,
        is_replaceable_kind(b.kind),
        a.created_at < b.created_at,
    ensures
        forall|k: (Seq<char>, Seq<char>)|
            #[trigger] after_upsert(after_upsert(store, index_a, a), index_b, b).contains_key(k)
                ==> !({
                let e = after_upsert(after_upsert(store, index_a, a), index_b, b)[k];
                e.pubkey@ == a.pubkey@ && e.kind == a.kind && e.created_at == a.created_at
            }),
{
    lemma_newest_replaceable_remains(after_upsert(store, index_a, a), index_b, b);
}

/// A deletion request whose author differs from the stored event's author
/// leaves the store unchanged and is refused as unauthorized; one from the
/// stored event's author removes exactly that one document.
pub proof fn lemma_deletion_authorized_by_author(
    store: Map<(Seq<char>, Seq<char>), Event>,
    claimed_author: Seq<char>,
    target: Seq<char>,
    index: String,
    stored: Event,
)
    requires
        store.dom().finite(),
        store.contains_key((index@, target)),
    ensures
        ({
            let lookup = Lookup::Found { index, event: stored };
            &&& stored.pubkey@ != claimed_author ==> after_deletion(
                store,
                claimed_author,
                target,
                lookup,
            ) == store && deletion_decision(claimed_author, lookup) == Err::<Seq<char>, DeletionError>(
                DeletionError::Unauthorized,
            )
            &&& stored.pubkey@ == claimed_author ==> after_deletion(
                store,
                claimed_author,
                target,
                lookup,
            ).dom() == store.dom().remove((index@, target)) && after_deletion(
                store,
                claimed_author,
                target,
                lookup,
            ).dom().len() + 1 == store.dom().len()
        }),
{
    let lookup = Lookup::Found { index, event: stored };
    if stored.pubkey@ == claimed_author {
        let after = after_deletion(store, claimed_author, target, lookup);
        assert(after.dom() =~= store.dom().remove((index@, target)));
    }
}

} // verus!
