use jevx::answer_cache::AnswerCache;
use jevx::decision::DecisionStatus;
use jevx::replay::{
    identity_matches, replay_outcome, ReplayIdentity, ReplayOutcome, LEGACY_RECEIPT_SCHEMA_VERSION,
    RECEIPT_SCHEMA_VERSION,
};

#[test]
fn cache_returns_what_was_stored_and_evicts_the_oldest() {
    let mut cache = AnswerCache::new(2);
    cache.put("a".to_owned(), 1);
    cache.put("b".to_owned(), 2);
    assert_eq!(cache.get("a"), Some(&1));
    cache.put("a".to_owned(), 3);
    assert_eq!(cache.get("a"), Some(&3));
    assert_eq!(cache.len(), 2);
    cache.put("c".to_owned(), 4);
    assert_eq!(cache.len(), 2);
    assert_eq!(cache.get("a"), None);
    assert_eq!(cache.get("b"), Some(&2));
    assert_eq!(cache.get("c"), Some(&4));
}

#[test]
fn zero_capacity_cache_keeps_nothing() {
    let mut cache = AnswerCache::new(0);
    cache.put("a".to_owned(), 1);
    assert_eq!(cache.get("a"), None);
    assert_eq!(cache.len(), 0);
    assert_eq!(cache.capacity(), 0);
}

fn identity() -> ReplayIdentity {
    ReplayIdentity {
        contract_version: "decision-contract.v1".to_owned(),
        question_id: "skill".to_owned(),
        question_version: "skill-choice.v1".to_owned(),
        policy_version: "policy.v1".to_owned(),
        state_digest: "digest".to_owned(),
        state_bytes: 120,
        candidate_count: 3,
        window_count: 1,
        omitted: vec![],
        redaction_reasons: vec!["prompt_secret_pattern".to_owned()],
        max_state_bytes: Some(32_000),
        candidate_limit: Some(32),
    }
}

#[test]
fn receipts_match_only_their_own_contract_and_state() {
    let current = identity();
    assert!(identity_matches(&identity(), &current));
    let mut legacy = identity();
    legacy.state_bytes = 0;
    legacy.max_state_bytes = None;
    legacy.candidate_limit = None;
    assert!(identity_matches(&legacy, &current));
    let mut other = identity();
    other.state_digest = "other".to_owned();
    assert!(!identity_matches(&other, &current));
    let mut reasons = identity();
    reasons.redaction_reasons.clear();
    assert!(!identity_matches(&reasons, &current));
    let mut budget = identity();
    budget.candidate_limit = Some(8);
    assert!(!identity_matches(&budget, &current));
}

#[test]
fn replay_outcomes_follow_the_checks_in_order() {
    let v = RECEIPT_SCHEMA_VERSION;
    assert_eq!(replay_outcome(9, true, true, true, true, DecisionStatus::Accepted, false), ReplayOutcome::UnsupportedSchema);
    assert_eq!(replay_outcome(LEGACY_RECEIPT_SCHEMA_VERSION, false, true, true, true, DecisionStatus::Accepted, false), ReplayOutcome::Mismatch);
    assert_eq!(replay_outcome(v, true, false, true, true, DecisionStatus::Accepted, false), ReplayOutcome::Mismatch);
    assert_eq!(replay_outcome(v, true, true, true, true, DecisionStatus::Accepted, false), ReplayOutcome::Replayed);
    assert_eq!(replay_outcome(v, true, true, true, false, DecisionStatus::Accepted, false), ReplayOutcome::Mismatch);
    assert_eq!(replay_outcome(v, true, true, false, false, DecisionStatus::Defer, true), ReplayOutcome::RecordedWithoutAnswer);
    assert_eq!(replay_outcome(v, true, true, false, false, DecisionStatus::Defer, false), ReplayOutcome::Mismatch);
    assert_eq!(replay_outcome(v, true, true, false, false, DecisionStatus::Accepted, true), ReplayOutcome::Mismatch);
}
