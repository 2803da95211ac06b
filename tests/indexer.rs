use std::str::FromStr;

use nostr_indexer::deletion::{
    authorize_deletion, decide_deletions, deletion_targets, DeletionError, Lookup,
};
use nostr_indexer::event::Event;
use nostr_indexer::kind::{classify, is_replaceable_event, Route};
use nostr_indexer::partition::{can_exist, index_name_for_event, IndexError};
use nostr_indexer::tags::convert_tags;
use nostr_indexer::text::{extract_text, profile_text};
use nostr_indexer::update::{plan_update, Retention, UpdatePlan};

fn strings(items: &[&str]) -> Vec<String> {
    items.iter().map(|s| s.to_string()).collect()
}

fn event(kind: u64, created_at: u64, content: &str, tags: Vec<Vec<String>>) -> Event {
    Event {
        id: "5c83da77af1dec6d7289834998ad7aafbd9e2191396d75ec3cc27f5a77226f36".to_string(),
        pubkey: "79be667ef9dcbbac55a06295ce870b07029bfcdb2dce28d959f2815b16f81798".to_string(),
        created_at,
        kind,
        content: content.to_string(),
        tags,
        sig: "00".to_string(),
    }
}

fn unix(text: &str) -> i64 {
    chrono::DateTime::<chrono::Utc>::from_str(text).unwrap().timestamp()
}

#[test]
fn test_can_exist() {
    let current_time = unix("2023-03-20T00:00:00Z");
    assert_eq!(can_exist("nostr-2023.03.22", current_time, 2, 1).unwrap(), false);
    assert_eq!(can_exist("nostr-2023.03.21", current_time, 2, 1).unwrap(), true);
    assert_eq!(can_exist("nostr-2023.03.20", current_time, 2, 1).unwrap(), true);
    assert_eq!(can_exist("nostr-2023.03.19", current_time, 2, 1).unwrap(), true);
    assert_eq!(can_exist("nostr-2023.03.18", current_time, 2, 1).unwrap(), false);
}

#[test]
fn retention_edges_within_the_day() {
    // One second before the partition ends its ttl still counts; the next does not.
    let start = unix("2023-03-20T00:00:00Z");
    assert_eq!(can_exist("nostr-2023.03.20", start + 86400 - 1, 1, 0), Ok(true));
    assert_eq!(can_exist("nostr-2023.03.20", start + 86400, 1, 0), Ok(false));
    assert_eq!(can_exist("nostr-2023.03.20", start - 1, 1, 0), Ok(false));
    assert_eq!(can_exist("nostr-2023.03.21", start, 7, 1), Ok(true));
}

#[test]
fn malformed_index_names_are_rejected() {
    let now = unix("2023-03-20T00:00:00Z");
    assert_eq!(can_exist("nostr-2023.02.30", now, 7, 1), Err(IndexError::MalformedIndexName));
    assert_eq!(can_exist("nostr", now, 7, 1), Err(IndexError::MalformedIndexName));
    assert_eq!(can_exist("nostr-", now, 7, 1), Err(IndexError::MalformedIndexName));
}

#[test]
fn date_after_last_dash_is_read() {
    let now = unix("2023-03-20T00:00:00Z");
    assert_eq!(can_exist("my-index-2023.03.20", now, 7, 1), Ok(true));
}

#[test]
fn index_name_is_the_utc_date() {
    let e = event(1, 1679270400, "", vec![]);
    assert_eq!(index_name_for_event("nostr", &e).unwrap(), "nostr-2023.03.20");
    let e = event(1, 0, "", vec![]);
    assert_eq!(index_name_for_event("nostr", &e).unwrap(), "nostr-1970.01.01");
}

#[test]
fn midnight_splits_partitions() {
    let before = event(1, 1679270399, "", vec![]);
    let after = event(1, 1679270400, "", vec![]);
    let late = event(1, 1679270400 + 86399, "", vec![]);
    let a = index_name_for_event("nostr", &before).unwrap();
    let b = index_name_for_event("nostr", &after).unwrap();
    let c = index_name_for_event("nostr", &late).unwrap();
    assert_eq!(a, "nostr-2023.03.19");
    assert_eq!(b, "nostr-2023.03.20");
    assert_ne!(a, b);
    assert_eq!(b, c);
}

#[test]
fn timestamps_without_a_four_digit_year_fail() {
    let far = event(1, 253402300800, "", vec![]);
    assert_eq!(index_name_for_event("nostr", &far), Err(IndexError::InvalidTimestamp));
    let last = event(1, 253402300799, "", vec![]);
    assert_eq!(index_name_for_event("nostr", &last).unwrap(), "nostr-9999.12.31");
    let huge = event(1, u64::MAX, "", vec![]);
    assert_eq!(index_name_for_event("nostr", &huge), Err(IndexError::InvalidTimestamp));
}

#[test]
fn convert_tags_keeps_single_char_keys_once() {
    let tags = vec![strings(&["e", "abc"]), strings(&["e", "abc"]), strings(&["encoding", "x"])];
    let index = convert_tags(&tags);
    assert_eq!(index.pairs, vec![("e".to_string(), "abc".to_string())]);
}

#[test]
fn convert_tags_skips_tags_without_value() {
    let tags = vec![
        strings(&["p"]),
        strings(&[]),
        strings(&["p", "k1", "relay"]),
        strings(&["t", "nostr"]),
        strings(&["p", "k2"]),
        strings(&["é", "v"]),
    ];
    let index = convert_tags(&tags);
    assert_eq!(
        index.pairs,
        vec![
            ("p".to_string(), "k1".to_string()),
            ("t".to_string(), "nostr".to_string()),
            ("p".to_string(), "k2".to_string()),
            ("é".to_string(), "v".to_string()),
        ]
    );
}

#[test]
fn text_note_content_is_kept() {
    let e = event(1, 0, "hello {\"name\":\"x\"}", vec![]);
    assert_eq!(extract_text(&e), "hello {\"name\":\"x\"}");
    let e = event(30023, 0, "long form", vec![]);
    assert_eq!(extract_text(&e), "long form");
}

#[test]
fn profile_values_are_joined() {
    let e = event(0, 0, "{\"name\":\"alice\",\"about\":\"bio\"}", vec![]);
    assert_eq!(extract_text(&e), "alice bio");
}

#[test]
fn malformed_profile_gives_empty_text() {
    assert_eq!(extract_text(&event(0, 0, "{not json", vec![])), "");
    assert_eq!(extract_text(&event(0, 0, "[\"a\"]", vec![])), "");
    assert_eq!(extract_text(&event(0, 0, "{\"name\":\"alice\",\"age\":3}", vec![])), "");
    assert_eq!(extract_text(&event(0, 0, "{}", vec![])), "");
}

#[test]
fn profile_text_from_values() {
    let values = Some(vec![Some("a".to_string()), Some("b c".to_string()), Some("".to_string())]);
    assert_eq!(profile_text(values), "a b c ");
    assert_eq!(profile_text(Some(vec![Some("a".to_string()), None])), "");
    assert_eq!(profile_text(None), "");
}

#[test]
fn kinds_are_routed() {
    assert_eq!(classify(0), Route::Upsert);
    assert_eq!(classify(1), Route::Upsert);
    assert_eq!(classify(30023), Route::Upsert);
    assert_eq!(classify(5), Route::Delete);
    assert_eq!(classify(3), Route::Ignore);
    assert_eq!(classify(7), Route::Ignore);
}

#[test]
fn replaceable_kinds() {
    for k in [0u64, 3, 41, 10000, 10002, 19999] {
        assert!(is_replaceable_event(&event(k, 0, "", vec![])), "kind {}", k);
    }
    for k in [1u64, 5, 40, 9999, 20000, 30023] {
        assert!(!is_replaceable_event(&event(k, 0, "", vec![])), "kind {}", k);
    }
}

#[test]
fn plan_writes_replaceable_profile() {
    let now = unix("2023-03-20T12:00:00Z");
    let retention = Retention { ttl_in_days: 7, allow_future_days: 1 };
    let e = event(0, 1679270400, "{\"name\":\"alice\"}", vec![strings(&["p", "k"])]);
    match plan_update("nostr", e, now, retention) {
        UpdatePlan::Write { index, document, purge_older } => {
            assert_eq!(index, "nostr-2023.03.20");
            assert_eq!(document.text, "alice");
            assert_eq!(document.tags.pairs, vec![("p".to_string(), "k".to_string())]);
            assert_eq!(document.event.created_at, 1679270400);
            assert!(purge_older);
        }
        _ => panic!("expected a write"),
    }
}

#[test]
fn plan_writes_text_note_without_purge() {
    let now = unix("2023-03-20T12:00:00Z");
    let retention = Retention { ttl_in_days: 7, allow_future_days: 1 };
    let first = plan_update("nostr", event(1, 1679270400, "hi", vec![]), now, retention);
    let second = plan_update("nostr", event(1, 1679270400, "hi", vec![]), now, retention);
    match (first, second) {
        (
            UpdatePlan::Write { index: i1, document: d1, purge_older: purge1 },
            UpdatePlan::Write { index: i2, document: d2, purge_older: purge2 },
        ) => {
            assert_eq!(i1, i2);
            assert_eq!(d1.event.id, d2.event.id);
            assert_eq!(d1.text, "hi");
            assert!(!purge1 && !purge2);
        }
        _ => panic!("expected two writes"),
    }
}

#[test]
fn plan_skips_stale_events() {
    let now = unix("2023-03-20T12:00:00Z");
    let retention = Retention { ttl_in_days: 7, allow_future_days: 1 };
    let stale = event(1, 1679270400 - 8 * 86400, "old", vec![]);
    match plan_update("nostr", stale, now, retention) {
        UpdatePlan::OutOfRange { index } => assert_eq!(index, "nostr-2023.03.12"),
        _ => panic!("expected a skip"),
    }
    let future = event(1, 1679270400 + 2 * 86400, "soon", vec![]);
    assert!(matches!(
        plan_update("nostr", future, now, retention),
        UpdatePlan::OutOfRange { .. }
    ));
}

#[test]
fn plan_drops_unrepresentable_timestamps() {
    let retention = Retention { ttl_in_days: 7, allow_future_days: 1 };
    let e = event(1, u64::MAX, "x", vec![]);
    assert!(matches!(
        plan_update("nostr", e, 0, retention),
        UpdatePlan::Dropped(IndexError::InvalidTimestamp)
    ));
}

fn found(index: &str, pubkey: &str) -> Lookup {
    let mut e = event(1, 100, "", vec![]);
    e.pubkey = pubkey.to_string();
    Lookup::Found { index: index.to_string(), event: e }
}

#[test]
fn deletion_needs_the_stored_author() {
    assert_eq!(authorize_deletion("alice", &found("nostr-2023.03.20", "bob")), Err(DeletionError::Unauthorized));
    assert_eq!(authorize_deletion("bob", &found("nostr-2023.03.20", "bob")), Ok("nostr-2023.03.20".to_string()));
    assert_eq!(authorize_deletion("bob", &Lookup::Missing), Err(DeletionError::NotFound));
    assert_eq!(authorize_deletion("bob", &Lookup::Failed), Err(DeletionError::StoreError));
}

#[test]
fn failed_reference_does_not_block_others() {
    let lookups = vec![found("nostr-2023.03.19", "bob"), Lookup::Failed, found("nostr-2023.03.20", "bob")];
    let decisions = decide_deletions("bob", &lookups);
    assert_eq!(
        decisions,
        vec![
            Ok("nostr-2023.03.19".to_string()),
            Err(DeletionError::StoreError),
            Ok("nostr-2023.03.20".to_string()),
        ]
    );
    let lookups = vec![found("a", "bob"), Lookup::Missing, found("b", "carol")];
    assert_eq!(
        decide_deletions("bob", &lookups),
        vec![Ok("a".to_string()), Err(DeletionError::NotFound), Err(DeletionError::Unauthorized)]
    );
}

#[test]
fn deletion_targets_follow_event_tags() {
    let tags = vec![
        strings(&["e", "id1"]),
        strings(&["p", "someone"]),
        strings(&["e"]),
        strings(&["e", "id2", "wss://relay"]),
        strings(&["E", "id3"]),
    ];
    let e = event(5, 0, "", tags);
    assert_eq!(deletion_targets(&e), strings(&["id1", "id2"]));
}

#[test]
fn newer_replaceable_event_purges_the_older_one() {
    // Documents in the store as (partition, id, pubkey, kind, created_at).
    let retention = Retention { ttl_in_days: 7, allow_future_days: 1 };
    let mut store: Vec<(String, String, String, u64, u64)> = Vec::new();
    let mut a = event(0, 100, "{\"name\":\"old\"}", vec![]);
    a.id = "a".to_string();
    let mut b = event(0, 200, "{\"name\":\"new\"}", vec![]);
    b.id = "b".to_string();
    for e in [a, b] {
        match plan_update("nostr", e, 300, retention) {
            UpdatePlan::Write { index, document, purge_older } => {
                let ev = document.event;
                store.retain(|d| !(d.0 == index && d.1 == ev.id));
                store.push((index, ev.id.clone(), ev.pubkey.clone(), ev.kind, ev.created_at));
                assert!(purge_older);
                store.retain(|d| !(d.2 == ev.pubkey && d.3 == ev.kind && d.4 < ev.created_at));
            }
            _ => panic!("expected a write"),
        }
    }
    assert_eq!(store.len(), 1);
    assert_eq!(store[0].1, "b");
    assert_eq!(store[0].0, "nostr-1970.01.01");
}
