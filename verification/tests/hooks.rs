use jevx::cost::CostStatus;
use jevx::error::JevxError;
use jevx::hooks::{
    analyze_hook_correlations, analyze_hook_counts, case_outcome, check_hook_event,
    correlation_digest, decision_label, dedupe_key, fact_is_retained, normalize_loaded_hook_record,
    prompt_step, safe_identifier, safe_skill_identifier, sanitized_identifier,
    savings_from_snapshots, shadow_error_code, should_cache_decision, skills_digest,
    summarize_compaction_runs, validate_conversation_case, validate_hook_record,
    CompactionRunFacts, ConversationCaseFacts, HookRecordFacts, HookResponse, MeasurementStatus,
    TokenUsageSnapshot, HOOK_SCHEMA_VERSION, PREVIOUS_HOOK_SCHEMA_VERSION,
};
use jevx::stats::percentile;
use jevx::types::{CandidateDecision, SkillRecord};

fn usage(total: u64) -> TokenUsageSnapshot {
    TokenUsageSnapshot {
        input_tokens: total,
        cached_input_tokens: 0,
        cache_write_input_tokens: 0,
        output_tokens: 0,
        reasoning_output_tokens: 0,
        total_tokens: total,
    }
}

fn record(event: &str) -> HookRecordFacts {
    HookRecordFacts {
        schema_version: HOOK_SCHEMA_VERSION,
        mode: "shadow".to_owned(),
        hook_event_name: event.to_owned(),
        trigger: None,
        source: None,
        selected_skill: None,
        session_id_sha256: Some("session".to_owned()),
        turn_id_sha256: Some("turn".to_owned()),
        model_sha256: None,
        correlation_id_sha256: None,
        dedupe_key_sha256: None,
        cost_metadata_valid: true,
        pre_compaction_usage: None,
        compaction_usage: None,
        post_compaction_usage: None,
        savings: None,
        savings_source: None,
        decision: None,
        has_error: false,
        elapsed_ms: 1,
        dedupe_hit: false,
        usage_measured: false,
        jev_cost_status: CostStatus::Unavailable,
        codex_cost_status: CostStatus::Unavailable,
        total_cost_status: CostStatus::Unavailable,
    }
}

fn count(table: &[(String, usize)], key: &str) -> usize {
    table
        .iter()
        .find(|(k, _)| k == key)
        .map(|(_, v)| *v)
        .unwrap_or(0)
}

#[test]
fn helper_metrics_and_error_codes_cover_empty_paths() {
    assert!(percentile(&[], 50).is_none());
    assert_eq!(percentile(&[30, 10, 20], 50), Some(20));
    let errors = [
        JevxError::InvalidInput("x".to_owned()),
        JevxError::MissingApiKey,
        JevxError::Provider("x".to_owned()),
        JevxError::ProviderWithMetrics {
            message: "x".to_owned(),
            calls: 1,
            retries: 0,
            response_ms: 2,
        },
        JevxError::Timeout,
        JevxError::TimeoutWithMetrics {
            calls: 1,
            retries: 0,
            response_ms: 2,
        },
        JevxError::Io(std::io::Error::other("x")),
        JevxError::Json(serde_json::from_str::<serde_json::Value>("{").expect_err("json")),
        JevxError::Yaml(serde_yaml::from_str::<serde_yaml::Value>("[").expect_err("yaml")),
    ];
    assert_eq!(errors.iter().map(|e| e.code()).count(), 9);
    let codes: Vec<&str> = errors.iter().map(|e| e.code()).collect();
    assert_eq!(
        codes,
        vec![
            "invalid_input",
            "missing_api_key",
            "provider_error",
            "provider_error",
            "timeout",
            "timeout",
            "io_error",
            "json_error",
            "yaml_error"
        ]
    );
    let exits: Vec<i32> = errors.iter().map(|e| e.exit_code()).collect();
    assert_eq!(exits, vec![2, 2, 3, 3, 3, 3, 2, 2, 2]);
}

#[test]
fn payload_parsers_and_measurements_keep_invalid_states_explicit() {
    let before = TokenUsageSnapshot {
        total_tokens: 10,
        input_tokens: 10,
        ..usage(0)
    };
    let after = TokenUsageSnapshot {
        total_tokens: 11,
        input_tokens: 11,
        ..usage(0)
    };
    assert_eq!(
        savings_from_snapshots(Some(before), Some(after)).status,
        MeasurementStatus::Degraded
    );
    let measured = savings_from_snapshots(Some(usage(100)), Some(usage(40)));
    assert_eq!(measured.saved_tokens, Some(60));
    assert_eq!(measured.status, MeasurementStatus::Measured);
    let missing = savings_from_snapshots(None, Some(usage(40)));
    assert_eq!(missing.status, MeasurementStatus::Unavailable);
    assert_eq!(savings_from_snapshots(Some(usage(0)), Some(usage(1))).before_tokens, None);

    let invalid = TokenUsageSnapshot {
        input_tokens: 1,
        cached_input_tokens: 2,
        ..usage(0)
    };
    assert!(invalid.validate("usage").is_err());
    assert!(usage(5).validate("usage").is_ok());
    let detailed = TokenUsageSnapshot {
        input_tokens: 100,
        cached_input_tokens: 30,
        ..usage(0)
    };
    assert_eq!(detailed.uncached_input_tokens(), 70);
}

#[test]
fn stats_cover_all_decisions_errors_usage_and_cost_statuses() {
    let decisions = [
        CandidateDecision::Selected,
        CandidateDecision::Explicit,
        CandidateDecision::NoMatch,
        CandidateDecision::NoCandidates,
        CandidateDecision::Error,
    ];
    let mut records: Vec<HookRecordFacts> = decisions
        .into_iter()
        .map(|decision| {
            let mut value = record("UserPromptSubmit");
            value.decision = Some(decision);
            value
        })
        .collect();
    records[0].dedupe_hit = true;
    records[0].dedupe_key_sha256 = Some("dedupe-key".to_owned());
    records[0].has_error = true;
    records[0].usage_measured = true;
    records[0].savings = Some(savings_from_snapshots(Some(usage(100)), Some(usage(50))));
    records[0].jev_cost_status = CostStatus::Available;
    records[0].codex_cost_status = CostStatus::Unknown;

    let report = analyze_hook_counts(&records).expect("stats");
    assert_eq!(report.decision_counts.len(), 5);
    assert_eq!(report.error_count, 1);
    assert_eq!(report.dedupe_hit_count, 1);
    assert_eq!(report.dedupe_target_count, 1);
    assert_eq!(report.usage_measured_records, 1);
    assert_eq!(report.measured_savings_records, 1);
    assert_eq!(report.saved_tokens, Some(50));
    assert_eq!(count(&report.cost_status_counts, "jev:available"), 1);
    assert_eq!(count(&report.cost_status_counts, "codex:unknown"), 1);
    assert_eq!(count(&report.cost_status_counts, "total:unavailable"), 5);
    assert_eq!(count(&report.decision_counts, "selected"), 1);
    assert_eq!(count(&report.event_counts, "UserPromptSubmit"), 5);
    assert!(analyze_hook_counts(&Vec::new()).is_err());
}

#[test]
fn invalid_records_are_refused_with_their_problem() {
    let mut bad = record("UserPromptSubmit");
    bad.hook_event_name = "Unknown".to_owned();
    match validate_hook_record(&bad, "hook record") {
        Err(JevxError::InvalidInput(m)) => assert_eq!(m, "hook record: unsupported hook event"),
        _ => panic!("expected an input error"),
    }
    let mut unsafe_id = record("UserPromptSubmit");
    unsafe_id.selected_skill = Some("bad skill".to_owned());
    assert!(validate_hook_record(&unsafe_id, "r").is_err());
    assert!(validate_hook_record(&record("PreCompact"), "r").is_ok());
    assert!(analyze_hook_counts(&vec![record("PreCompact"), bad]).is_err());
}

#[test]
fn normalization_and_conversation_validation_remain_safe() {
    let mut value = record("SessionStart");
    value.schema_version = PREVIOUS_HOOK_SCHEMA_VERSION;
    value.trigger = Some("unsafe trigger".to_owned());
    value.source = Some("unsafe source".to_owned());
    normalize_loaded_hook_record(&mut value);
    assert_eq!(value.schema_version, HOOK_SCHEMA_VERSION);
    assert!(value.trigger.is_none());
    assert!(value.source.is_none());

    let mut case = ConversationCaseFacts {
        case_id: "case".to_owned(),
        required_facts: vec!["fact".to_owned()],
        follow_up_text: "follow-up".to_owned(),
        secret_markers: vec!["secret".to_owned()],
        model: None,
        compaction_completed: true,
        input_chars: 1,
        conversation_turns: 1,
        context_chars: 1,
        failure_recovery_required: false,
        tool_history_items: 0,
        tool_failure_count: 0,
        interrupted_turns: 0,
        recovery_turns: 0,
        recovery_completed: false,
        pre_compaction_usage: None,
        compaction_usage: None,
        post_compaction_usage: None,
        post_compaction_cost_valid: true,
        codex_usage_valid: false,
        observed_events: vec!["PostCompact".to_owned()],
    };
    assert!(validate_conversation_case(&case, "case").is_err());
    case.codex_usage_valid = true;
    assert!(validate_conversation_case(&case, "case").is_ok());

    assert_eq!(decision_label(CandidateDecision::Selected), "selected");
    assert_eq!(decision_label(CandidateDecision::Explicit), "explicit");
    assert_eq!(decision_label(CandidateDecision::NoMatch), "none");
    assert_eq!(decision_label(CandidateDecision::NoCandidates), "no_candidates");
    assert_eq!(decision_label(CandidateDecision::Error), "error");
}

#[test]
fn correlations_group_records_of_one_turn() {
    let mut a = record("PreCompact");
    a.correlation_id_sha256 = Some("c".to_owned());
    let mut b = record("PostCompact");
    b.correlation_id_sha256 = Some("c".to_owned());
    let c = record("SessionStart");
    let report = analyze_hook_correlations(&vec![a, b, c]).expect("report");
    assert_eq!(report.record_count, 3);
    assert!(analyze_hook_correlations(&Vec::new()).is_err());
}

#[test]
fn identifiers_and_hook_events_are_checked() {
    assert!(safe_identifier("abc-1.2/x_y", 32));
    assert!(!safe_identifier("a:b", 32));
    assert!(safe_skill_identifier("plugin:skill", 32));
    assert!(!safe_identifier("", 32));
    assert!(!safe_identifier("abcd", 3));
    assert_eq!(sanitized_identifier(Some("ok"), 8).as_deref(), Some("ok"));
    assert!(sanitized_identifier(Some("not ok"), 8).is_none());

    match check_hook_event(None, None) {
        Err(JevxError::InvalidInput(m)) => assert_eq!(m, "hook event is required"),
        _ => panic!("expected an input error"),
    }
    match check_hook_event(Some("Stop"), None) {
        Err(JevxError::InvalidInput(m)) => assert_eq!(m, "unsupported hook event: Stop"),
        _ => panic!("expected an input error"),
    }
    match check_hook_event(Some("PreCompact"), Some("PostCompact")) {
        Err(JevxError::InvalidInput(m)) => {
            assert_eq!(m, "hook event mismatch: expected PostCompact, got PreCompact")
        }
        _ => panic!("expected an input error"),
    }
    assert!(check_hook_event(Some("PreCompact"), Some("PreCompact")).is_ok());
    let response = HookResponse::observe_only();
    assert!(response.continue_running && response.suppress_output);
}

#[test]
fn digests_depend_on_their_inputs() {
    let plain = correlation_digest(Some("s"), None).expect("digest");
    let with_turn = correlation_digest(Some("s"), Some("t")).expect("digest");
    assert_eq!(plain.len(), 64);
    assert_ne!(plain, with_turn);
    assert_ne!(plain, "s");
    assert!(correlation_digest(None, Some("t")).is_none());

    let skill = |id: &str| SkillRecord::new(id.to_owned(), "d".to_owned(), "p".to_owned(), "s".to_owned());
    let ab = skills_digest(&vec![skill("a"), skill("b")]);
    let ba = skills_digest(&vec![skill("b"), skill("a")]);
    assert_eq!(ab, ba);
    assert_ne!(ab, skills_digest(&vec![skill("a")]));

    let some = |v: &str| Some(v.to_owned());
    let key = dedupe_key(&some("s"), &some("t"), &None, "UserPromptSubmit", &None, &None, &some("p"), "/repo", "k", "c");
    let other = dedupe_key(&some("s"), &some("t"), &None, "UserPromptSubmit", &None, &None, &some("q"), "/repo", "k", "c");
    assert_eq!(key.as_ref().map(|k| k.len()), Some(64));
    assert_ne!(key, other);
    assert!(dedupe_key(&some("s"), &None, &None, "UserPromptSubmit", &None, &None, &some("p"), "/repo", "k", "c").is_none());
}

#[test]
fn prompt_steps_and_cache_rules() {
    assert_eq!(prompt_step(false, Some("  hi  "), true), Ok("hi".to_owned()));
    assert_eq!(prompt_step(false, Some("   "), true), Err("invalid_input"));
    assert_eq!(prompt_step(true, None, true), Err("dedupe_error"));
    assert_eq!(prompt_step(false, Some("hi"), false), Err("missing_api_key"));
    assert_eq!(shadow_error_code(true, "timeout"), "dedupe_error");
    assert_eq!(shadow_error_code(false, "timeout"), "timeout");
    assert!(should_cache_decision(None, CandidateDecision::Selected));
    assert!(!should_cache_decision(Some(true), CandidateDecision::Selected));
    assert!(!should_cache_decision(None, CandidateDecision::Error));
}

#[test]
fn retained_facts_match_verbatim_or_as_key_value() {
    assert!(fact_is_retained("the fact is here", "fact"));
    assert!(!fact_is_retained("The Fact", "fact"));
    assert!(fact_is_retained("port: 8080", "port=8080"));
    assert!(fact_is_retained("port:8080", "port=8080"));
    assert!(!fact_is_retained("port 8080", "port=8080"));
}

#[test]
fn case_outcomes_count_facts_and_leaks() {
    let case = ConversationCaseFacts {
        case_id: "case".to_owned(),
        required_facts: vec!["alpha".to_owned(), "beta".to_owned()],
        follow_up_text: "alpha and secret".to_owned(),
        secret_markers: vec!["secret".to_owned()],
        model: None,
        compaction_completed: true,
        input_chars: 1,
        conversation_turns: 1,
        context_chars: 1,
        failure_recovery_required: false,
        tool_history_items: 0,
        tool_failure_count: 0,
        interrupted_turns: 0,
        recovery_turns: 0,
        recovery_completed: false,
        pre_compaction_usage: None,
        compaction_usage: None,
        post_compaction_usage: None,
        post_compaction_cost_valid: true,
        codex_usage_valid: true,
        observed_events: vec![],
    };
    let outcome = case_outcome(&case);
    assert_eq!(outcome.retained_required_facts, 1);
    assert_eq!(outcome.secret_leaks, 1);
    assert_eq!(outcome.output_chars, 16);
    assert_eq!(outcome.error_code, Some("required_fact_lost"));
    let summary = summarize_compaction_runs(&Vec::<CompactionRunFacts>::new());
    assert_eq!(summary.run_count, 0);
    assert_eq!(summary.passed, 0);
    assert!(summary.duration_ms_p50.is_none());
}

fn run(leaks: usize, retained: usize, duration_ms: u64) -> CompactionRunFacts {
    CompactionRunFacts {
        has_error: false,
        secret_leaks: leaks,
        required_fact_count: 2,
        retained_required_facts: retained,
        compaction_completed: true,
        duration_ms,
        output_chars: 10,
        failure_recovery_required: false,
        recovery_completed: false,
        tool_history_items: 1,
        tool_failure_count: 0,
        interrupted_turns: 0,
        recovery_turns: 0,
        post_compaction_usage: Some(usage(30)),
        savings: Some(savings_from_snapshots(Some(usage(100)), Some(usage(30)))),
        jev_cost_status: CostStatus::Unavailable,
        codex_cost_status: CostStatus::Unavailable,
        total_cost_status: CostStatus::Unavailable,
    }
}

#[test]
fn compaction_summary_counts_passed_runs_and_savings() {
    let summary = summarize_compaction_runs(&vec![run(0, 2, 10), run(1, 2, 30), run(0, 1, 20)]);
    assert_eq!(summary.run_count, 3);
    assert_eq!(summary.passed, 1);
    assert_eq!(summary.secret_leaks, 1);
    assert_eq!(summary.required_facts, 6);
    assert_eq!(summary.retained_facts, 5);
    assert_eq!(summary.duration_ms_p50, Some(20));
    assert_eq!(summary.duration_ms_p95, Some(30));
    assert_eq!(summary.token_savings_measured_runs, 3);
    assert_eq!(summary.total_saved_tokens, Some(210));
    assert_eq!(summary.total_before_tokens, Some(300));
    assert_eq!(summary.total_tokens, 90);
    assert_eq!(count(&summary.cost_status_counts, "total:unavailable"), 3);
}

#[test]
fn correlation_groups_partition_the_records_largest_first() {
    let keyed = |event: &str, session: &str| {
        let mut r = record(event);
        r.session_id_sha256 = Some(session.to_owned());
        r
    };
    let unkeyed = |event: &str| {
        let mut r = record(event);
        r.session_id_sha256 = None;
        r.turn_id_sha256 = None;
        r
    };
    let records = vec![
        keyed("UserPromptSubmit", "s1"),
        unkeyed("SessionStart"),
        keyed("UserPromptSubmit", "s1"),
        keyed("PreCompact", "s2"),
        unkeyed("SessionStart"),
        keyed("UserPromptSubmit", "s1"),
    ];
    let report = analyze_hook_correlations(&records).expect("report");
    let counts: Vec<usize> = report.groups.iter().map(|g| g.count).collect();
    assert_eq!(counts.iter().sum::<usize>(), records.len());
    assert_eq!(counts, vec![3, 1, 1, 1]);
    assert_eq!(report.duplicate_group_count, 1);
    assert_eq!(report.duplicate_record_count, records.len() - report.groups.len());
    assert_eq!(report.event_counts.iter().map(|(_, c)| *c).sum::<usize>(), records.len());
}
