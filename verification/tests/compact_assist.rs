use jevx::compact_assist::{
    first_warning, merge_previous_usage, safe_label, same_known_cycle, same_optional_identity,
    session_start_context, truncate_context,
};
use jevx::compact_assist::{
    checkpoint_schema_supported, latest_compaction_event, open_pre_compaction, CheckpointKey,
    COMPACT_CHECKPOINT_SCHEMA_VERSION,
};
use jevx::compact_assist::{compact_plan, record_setback, CompactPlan, CompactReport, CompactSetback};
use jevx::hooks::{MeasurementStatus, TokenUsageSnapshot};

fn key(session: &str, event: &str, turn: Option<&str>) -> CheckpointKey {
    CheckpointKey {
        session: Some(session.to_owned()),
        event: event.to_owned(),
        turn: turn.map(str::to_owned),
        correlation: turn.map(|_| "cycle-hash".to_owned()),
    }
}

fn usage(total: u64) -> TokenUsageSnapshot {
    TokenUsageSnapshot {
        input_tokens: total,
        cached_input_tokens: 0,
        cache_write_input_tokens: 0,
        output_tokens: 0,
        reasoning_output_tokens: 0,
        total_tokens: total,
    }
}

#[test]
fn previous_usage_is_not_merged_across_compaction_cycles() {
    let same = same_known_cycle(
        Some("turn-hash"),
        Some("cycle-hash"),
        Some("different-turn"),
        Some("cycle-hash"),
    );
    assert!(!same);
    let merged = merge_previous_usage(same, None, None, Some(usage(50)), None, Some(usage(100)), None);
    assert!(merged.pre_compaction_usage.is_none());
    assert!(merged.token_savings.is_none());
}

#[test]
fn previous_usage_is_merged_within_one_cycle() {
    let same = same_known_cycle(
        Some("turn-hash"),
        Some("cycle-hash"),
        Some("turn-hash"),
        Some("cycle-hash"),
    );
    assert!(same);
    let merged = merge_previous_usage(same, None, None, Some(usage(40)), None, Some(usage(100)), Some(usage(7)));
    assert_eq!(merged.pre_compaction_usage, Some(usage(100)));
    assert_eq!(merged.compaction_usage, Some(usage(7)));
    let savings = merged.token_savings.expect("savings");
    assert_eq!(savings.saved_tokens, Some(60));
    assert_eq!(savings.status, MeasurementStatus::Measured);
}

#[test]
fn unknown_turns_are_not_one_cycle() {
    assert!(!same_known_cycle(None, None, None, None));
    assert!(same_known_cycle(Some("t"), None, Some("t"), None));
    assert!(!same_known_cycle(Some("t"), Some("c"), Some("t"), None));
}

#[test]
fn helpers_filter_unsafe_labels_and_truncate_context() {
    assert_eq!(safe_label(Some("manual"), 32).as_deref(), Some("manual"));
    assert!(safe_label(Some("manual value"), 32).is_none());
    assert!(safe_label(Some(""), 32).is_none());
    assert_eq!(truncate_context("abcdef", 3), "…");
    assert_eq!(truncate_context("abcdef", 0), "");
    assert_eq!(
        truncate_context("abcdefghijklmnopqrstuvwxyz0123456789", 32)
            .chars()
            .count(),
        32
    );
    assert_eq!(truncate_context("abc", 3), "abc");
    assert!(same_optional_identity(None, None));
    assert!(!same_optional_identity(None, Some("cycle-hash")));
}

#[test]
fn session_start_context_lists_checkpoint_and_context_lines() {
    let text = session_start_context(Some(("PreCompact", true, 12)), Some("ctx"));
    assert_eq!(
        text,
        "jevx compact checkpoint restored (deterministic prototype).\n\
Treat this as supplemental context; verify the current repository and conversation.\n\
checkpoint event=PreCompact contextAvailable=true contextChars=12\n\
Local compact context manifest (redacted):\nctx"
    );
    let missing = session_start_context(None, None);
    assert!(missing.ends_with("checkpoint metadata was not found for this session."));
}

#[test]
fn first_warning_is_kept() {
    assert_eq!(first_warning(None, "b"), "b");
    assert_eq!(first_warning(Some("a"), "b"), "a");
}

#[test]
fn pre_compaction_checkpoint_without_turn_identity_is_not_measured() {
    let keys = vec![key("session-hash", "PreCompact", None)];
    assert_eq!(open_pre_compaction(&keys, Some("session-hash"), None, None), None);
}

#[test]
fn checkpoint_reads_migrate_supported_versions_and_reject_unknown_versions() {
    for version in [1u8, 2, 3, 4, COMPACT_CHECKPOINT_SCHEMA_VERSION] {
        assert!(checkpoint_schema_supported(version));
    }
    assert!(!checkpoint_schema_supported(0));
    assert!(!checkpoint_schema_supported(99));
}

#[test]
fn post_compaction_closes_the_open_pre_compaction_of_its_cycle() {
    let pre = || key("session-hash", "PreCompact", Some("turn-hash"));
    let post = || key("session-hash", "PostCompact", Some("turn-hash"));
    assert_eq!(open_pre_compaction(&vec![], None, Some("turn-hash"), Some("cycle-hash")), None);
    assert_eq!(open_pre_compaction(&vec![], Some("session-hash"), Some("turn-hash"), Some("cycle-hash")), None);
    let mut keys = vec![pre()];
    assert_eq!(open_pre_compaction(&keys, Some("session-hash"), Some("turn-hash"), Some("cycle-hash")), Some(0));
    keys.push(post());
    assert_eq!(open_pre_compaction(&keys, Some("session-hash"), Some("turn-hash"), Some("cycle-hash")), None);
    keys.push(pre());
    keys.push(pre());
    keys.push(post());
    assert_eq!(open_pre_compaction(&keys, Some("session-hash"), Some("turn-hash"), Some("cycle-hash")), Some(2));
    keys.push(key("other-session", "PostCompact", Some("turn-hash")));
    keys.push(key("session-hash", "PostCompact", Some("other-turn")));
    assert_eq!(open_pre_compaction(&keys, Some("session-hash"), Some("turn-hash"), Some("cycle-hash")), Some(2));
    assert_eq!(open_pre_compaction(&keys, Some("session-hash"), Some("other-turn"), Some("cycle-hash")), None);
    assert_eq!(latest_compaction_event(&keys, Some("session-hash")), Some(6));
    assert_eq!(latest_compaction_event(&keys, Some("other-session")), Some(5));
    assert_eq!(latest_compaction_event(&keys, Some("missing")), None);
    assert_eq!(latest_compaction_event(&keys, None), None);
    keys.push(key("session-hash", "SessionStart", Some("turn-hash")));
    assert_eq!(latest_compaction_event(&keys, Some("session-hash")), Some(6));
}

#[test]
fn compaction_steps_report_their_first_setback_and_plan_by_event() {
    let start = CompactReport { warning: None, error_code: None };
    let read = record_setback(start, CompactSetback::ContextReadFailed);
    assert_eq!(read.warning, Some("compact_context_read_failed"));
    assert_eq!(read.error_code, Some("compact_context_read_failed"));
    let stored = record_setback(read, CompactSetback::StorageFailed);
    assert_eq!(stored.warning, Some("compact_context_read_failed"));
    assert_eq!(stored.error_code, Some("compact_assist_storage_failed"));
    let decided = record_setback(start, CompactSetback::DecisionStateFailed);
    assert_eq!(decided.warning, Some("compact_decision_state_failed"));
    let written = record_setback(decided, CompactSetback::DecisionReceiptWriteFailed);
    assert_eq!(written.warning, Some("compact_decision_state_failed"));
    assert_eq!(written.error_code, Some("decision_receipt_write_failed"));

    let pre = compact_plan(Some("PreCompact"), None, true, true);
    assert_eq!(pre, CompactPlan { consult: true, restore: false, carry_previous: false });
    assert!(!compact_plan(Some("PreCompact"), None, false, true).consult);
    assert!(!compact_plan(Some("PreCompact"), None, true, false).consult);
    assert_eq!(compact_plan(Some("SessionStart"), Some("compact"), true, true), CompactPlan { consult: false, restore: true, carry_previous: false });
    assert!(!compact_plan(Some("SessionStart"), Some("startup"), true, true).restore);
    assert_eq!(compact_plan(Some("PostCompact"), None, false, false), CompactPlan { consult: false, restore: false, carry_previous: true });
    assert_eq!(compact_plan(None, Some("compact"), true, true), CompactPlan { consult: false, restore: false, carry_previous: false });
}
