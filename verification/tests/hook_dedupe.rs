use jevx::hook_dedupe::{
    check_schema, is_blank_state, prune_expired, CachedHookDecision, DedupeState,
    DEDUPE_CAPACITY, DEDUPE_SCHEMA_VERSION,
};
use jevx::types::CandidateDecision;

fn entry(key: &str) -> CachedHookDecision {
    CachedHookDecision {
        key_sha256: key.to_owned(),
        created_at_ms: 0,
        decision: CandidateDecision::NoMatch,
        selected_skill: None,
        discovery_ms: Some(1),
        jev_response_ms: Some(2),
        total_ms: Some(3),
        input_tokens: Some(4),
        output_tokens: Some(5),
    }
}

#[test]
fn store_round_trips_and_replaces_a_key() {
    let mut state = DedupeState::empty();
    state.insert(entry("key"), 1_000);
    let (stored, _) = state.lookup("key", 1_000);
    let stored = stored.expect("stored entry");
    assert_eq!(stored.key_sha256, "key");
    assert_eq!(stored.decision, CandidateDecision::NoMatch);
    assert_eq!(stored.total_ms, Some(3));
    assert_eq!(stored.created_at_ms, 1_000);
    state.insert(CachedHookDecision { decision: CandidateDecision::Selected, ..entry("key") }, 1_001);
    assert_eq!(state.entries.len(), 1);
    assert_eq!(state.lookup("key", 1_002).0.expect("hit").decision, CandidateDecision::Selected);
}

#[test]
fn state_rejects_unknown_schema_and_caps_old_entries() {
    let wrong = DedupeState { schema_version: 99, entries: Vec::new() };
    assert!(check_schema(&wrong).is_err());
    assert!(check_schema(&DedupeState::empty()).is_ok());
    assert_eq!(DedupeState::empty().schema_version, DEDUPE_SCHEMA_VERSION);

    let mut expired = DedupeState { schema_version: DEDUPE_SCHEMA_VERSION, entries: vec![CachedHookDecision { created_at_ms: 1, ..entry("expired-key") }] };
    let (hit, changed) = expired.lookup("expired-key", 1 + 30_001);
    assert!(hit.is_none());
    assert!(changed);

    let mut state = DedupeState::empty();
    for index in 0..=DEDUPE_CAPACITY {
        state.insert(entry(&format!("key-{index}")), 5_000);
    }
    assert_eq!(state.entries.len(), DEDUPE_CAPACITY);
    assert!(state.lookup("key-0", 5_000).0.is_none());
    assert!(state.lookup(&format!("key-{DEDUPE_CAPACITY}"), 5_000).0.is_some());
}

#[test]
fn entries_live_for_thirty_seconds() {
    let mut state = DedupeState::empty();
    state.insert(entry("k"), 10_000);
    assert!(state.lookup("k", 40_000).0.is_some());
    assert!(state.lookup("k", 40_001).0.is_none());
    let mut entries = vec![CachedHookDecision { created_at_ms: 50, ..entry("future") }];
    assert!(!prune_expired(&mut entries, 10));
    assert!(is_blank_state(b" \n\t"));
    assert!(!is_blank_state(b" {}"));
}
