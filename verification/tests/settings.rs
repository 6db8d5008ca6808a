use jevx::retry::{backoff_ms, is_retryable, should_retry};
use jevx::data::{purge_action, PurgeAction};
use jevx::config::{number_or, parse_u64, telemetry_enabled};
use jevx::cost::{combined_basis, safe_cost_metadata, CostBasis, CostStatus};
use jevx::data::{managed_file_list, needs_dedupe_lock, record_count, DataFile, DataInventory, DATA_SCHEMA_VERSION};
use jevx::recorder::JsonlDecisionRecorder;
use jevx::telemetry::{TelemetryCounts, TelemetryFacts};
use jevx::types::CandidateDecision;

#[test]
fn numbers_parse_like_unsigned_integers() {
    assert_eq!(parse_u64("1500"), Some(1500));
    assert_eq!(parse_u64("+7"), Some(7));
    assert_eq!(parse_u64("18446744073709551615"), Some(u64::MAX));
    assert_eq!(parse_u64("18446744073709551616"), None);
    assert_eq!(parse_u64(""), None);
    assert_eq!(parse_u64("+"), None);
    assert_eq!(parse_u64("-1"), None);
    assert_eq!(parse_u64(" 1"), None);
    assert_eq!(parse_u64("1x"), None);
    for text in ["0", "42", "007", "+12"] {
        assert_eq!(parse_u64(text), text.parse::<u64>().ok());
    }
}

#[test]
fn settings_fall_back_to_defaults() {
    assert_eq!(number_or(Some("7"), 25), 7);
    assert_eq!(number_or(Some("seven"), 25), 25);
    assert_eq!(number_or(None, 1_500), 1_500);
    assert!(telemetry_enabled(None));
    assert!(!telemetry_enabled(Some("off")));
    assert!(!telemetry_enabled(Some("0")));
    assert!(telemetry_enabled(Some("OFF")));
    assert!(telemetry_enabled(Some("1")));
}

#[test]
fn cost_labels_and_metadata_rules() {
    assert_eq!(CostStatus::Available.label(), "available");
    assert_eq!(CostStatus::Unknown.label(), "unknown");
    assert_eq!(CostStatus::Unavailable.label(), "unavailable");
    assert_eq!(CostBasis::Estimated.label(), "estimated");
    assert_eq!(CostBasis::Actual.label(), "actual");
    assert_eq!(combined_basis(CostBasis::Actual, CostBasis::Actual), CostBasis::Actual);
    assert_eq!(combined_basis(CostBasis::Actual, CostBasis::Estimated), CostBasis::Estimated);
    assert!(safe_cost_metadata("USD", 16));
    assert!(safe_cost_metadata("provider-usage/v1.2:a_b", 32));
    assert!(!safe_cost_metadata("", 16));
    assert!(!safe_cost_metadata("US D", 16));
    assert!(!safe_cost_metadata("abcdef", 5));
}

#[test]
fn managed_files_are_listed_in_order() {
    let kinds: Vec<&str> = managed_file_list().iter().map(|(kind, _)| *kind).collect();
    assert_eq!(
        kinds,
        [
            "telemetry",
            "hookRecords",
            "hookDedupe",
            "hookDedupeLock",
            "hookDedupeTemps",
            "compactionRecords",
            "compactionCheckpoints",
            "decisionReceipts",
            "reviewReceipts"
        ]
    );
    assert_eq!(managed_file_list()[6].1, "compaction/checkpoints.jsonl");
}

#[test]
fn blank_lines_are_not_records() {
    assert_eq!(record_count(b"{\"a\":1}\n{\"a\":2}\n"), 2);
    assert_eq!(record_count(b"{}\n\n  \n"), 1);
    assert_eq!(record_count(b""), 0);
    assert_eq!(record_count(b"no newline"), 1);
    assert_eq!(record_count(&[0xff, 0xfe, b'\n', b'x']), 2);
}

fn file(kind: &str, exists: bool) -> DataFile {
    DataFile { kind: kind.to_owned(), path: format!("/data/{kind}"), exists, bytes: 0, records: 0 }
}

#[test]
fn purge_locks_only_when_dedupe_files_exist() {
    let mut inventory = DataInventory {
        schema_version: DATA_SCHEMA_VERSION,
        data_home: "/data".to_owned(),
        files: vec![file("telemetry", true), file("hookDedupe", false), file("hookDedupeTemps", false)],
    };
    assert!(!needs_dedupe_lock(&inventory));
    inventory.files[2].exists = true;
    assert!(needs_dedupe_lock(&inventory));
}

#[test]
fn recorder_keeps_its_path() {
    let recorder = JsonlDecisionRecorder::new("/data/decisions.jsonl".to_owned());
    assert_eq!(recorder.path(), "/data/decisions.jsonl");
}

#[test]
fn telemetry_counts_group_decisions() {
    let mut counts = TelemetryCounts::new();
    let events = [
        TelemetryFacts { decision: CandidateDecision::Selected, jev_response_ms: 10, total_ms: 12, input_tokens: Some(5), output_tokens: None },
        TelemetryFacts { decision: CandidateDecision::Explicit, jev_response_ms: 0, total_ms: 1, input_tokens: None, output_tokens: None },
        TelemetryFacts { decision: CandidateDecision::NoCandidates, jev_response_ms: 0, total_ms: 2, input_tokens: None, output_tokens: Some(3) },
        TelemetryFacts { decision: CandidateDecision::Error, jev_response_ms: 4, total_ms: 4, input_tokens: None, output_tokens: None },
    ];
    for e in events.iter() {
        assert!(counts.has_room());
        counts.add(e);
    }
    assert_eq!(counts.events, 4);
    assert_eq!(counts.selected, 2);
    assert_eq!(counts.none, 1);
    assert_eq!(counts.errors, 1);
    assert_eq!(counts.response_times, vec![10, 4]);
    assert_eq!(counts.total_times, vec![12, 1, 2, 4]);
    assert_eq!(counts.input_tokens, vec![5]);
    assert_eq!(counts.output_tokens, vec![3]);
    assert_eq!(counts.usage_events, 2);
}

#[test]
fn retries_follow_status_attempts_and_doubling_backoff() {
    assert!(is_retryable(429));
    assert!(is_retryable(529));
    assert!(!is_retryable(500));
    assert!(should_retry(429, 1, 1));
    assert!(!should_retry(429, 2, 1));
    assert!(!should_retry(503, 1, 3));
    assert_eq!(backoff_ms(25, 1), 25);
    assert_eq!(backoff_ms(25, 2), 50);
    assert_eq!(backoff_ms(25, 4), 200);
    assert_eq!(backoff_ms(1, 40), u32::MAX as u128);
}

#[test]
fn purge_keeps_the_lock_and_empties_the_temp_directory() {
    assert_eq!(purge_action(&file("telemetry", true)), PurgeAction::Remove);
    assert_eq!(purge_action(&file("telemetry", false)), PurgeAction::Keep);
    assert_eq!(purge_action(&file("hookDedupeLock", true)), PurgeAction::Keep);
    assert_eq!(purge_action(&file("hookDedupeTemps", true)), PurgeAction::RemoveFilesInside);
}
