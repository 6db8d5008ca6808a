use jevx::digest::sha256_hex;
use jevx::cost::CostStatus;
use jevx::error::JevxError;
use jevx::route::{RouteStatus, TaskDifficulty};
use jevx::review::{
    count_receipts, gated_review, judge_failure, known_no_external_review, review_gate, review_replay_id, review_status,
    ReviewCounts, ReviewReceiptFacts, REVIEW_CONTRACT_VERSION,
    check_fix_operation, finish_fix_application, fix_gate, fix_plan_blocked, local_findings,
    safe_fix_path, status_label, FixCheck, FixOperation, FixPlan, FixStatus, FixStep,
    ReviewCategory, ReviewRequest, ReviewStatus, ReviewTarget,
};
use jevx::stats::percentile;

#[test]
fn fix_excludes_legacy_git_and_secret_paths() {
    for path in [
        "legacy/file.rs",
        ".git/config",
        ".env",
        "id_rsa",
        "credentials",
        "secret.key",
        "key.pem",
        "../outside",
        "/absolute/path",
        "",
    ] {
        assert!(!safe_fix_path(path), "{path} should be excluded");
    }
    assert!(safe_fix_path("src/file.rs"));
    assert!(safe_fix_path("./src/./file.rs"));
}

#[test]
fn request_never_serializes_body_without_explicit_opt_in() {
    let request = ReviewRequest::from_content(
        ReviewTarget::Prompt,
        Some("秘密 secret=fixture-only"),
        Some("/workspace"),
        false,
    );
    assert!(!request.content_included);
    assert!(request.content.is_none());
    assert_eq!(request.local_content.as_deref(), Some("秘密 <redacted>"));
    assert!(!request.content_digest.contains("fixture-only"));
}

#[test]
fn local_four_category_fixture_is_reproducible() {
    let content = "適宜対応する。必須だが不要でもある。\n// always returns true\nreturn false;";
    let findings = local_findings(ReviewTarget::Diff, content);
    let categories = findings.iter().map(|finding| finding.category).collect::<Vec<_>>();
    assert!(categories.contains(&ReviewCategory::JapaneseClarity));
    assert!(!categories.contains(&ReviewCategory::TextContradiction));
    assert!(categories.contains(&ReviewCategory::CodeContradiction));
    assert!(categories.contains(&ReviewCategory::CommentImplementationDrift));
}

#[test]
fn local_text_contradiction_detection_defers_without_same_proposition_proof() {
    let findings = local_findings(ReviewTarget::Turn, "必須だが不要でもある。\n別の話として必ず確認する。");
    assert!(!findings.iter().any(|finding| finding.category == ReviewCategory::TextContradiction));
}

#[test]
fn request_metadata_state_and_digest_are_stable_without_body() {
    let request = ReviewRequest::from_content(ReviewTarget::Turn, Some("safe content"), Some("/workspace"), true)
        .with_metadata(100, true, true)
        .with_identifiers(Some("task"), Some("session"), Some("turn"));
    assert_eq!(request.file_count, 100);
    assert!(request.skill_body_included);
    assert!(request.settings_included);
    assert_eq!(request.task_id_sha256.as_deref(), Some(sha256_hex("task").as_str()));
    assert_eq!(request.content_chars, 12);
    assert_eq!(request.content.as_deref(), Some("safe content"));
}

#[test]
fn local_and_helper_branches_are_explicit() {
    assert!(local_findings(ReviewTarget::Prompt, "plain").is_empty());
    assert!(!local_findings(ReviewTarget::Diff, "must return true\nreturn false").is_empty());
    assert_eq!(status_label(ReviewStatus::Completed), "completed");
    assert_eq!(status_label(ReviewStatus::NoFindings), "none");
    assert_eq!(status_label(ReviewStatus::Unknown), "unknown");
    assert_eq!(status_label(ReviewStatus::Degraded), "degraded");
    assert_eq!(status_label(ReviewStatus::Failed), "failed");
    assert_eq!(percentile(&[], 50), None);
    assert_eq!(percentile(&[20, 10, 30], 50), Some(20));
    assert_eq!(percentile(&[20, 10, 30], 95), Some(30));
    assert_eq!(fix_plan_blocked(FixPlan::not_requested(), "test").status, FixStatus::NotRequested);
    assert_eq!(fix_plan_blocked(FixPlan::requested(Vec::new()), "test").status, FixStatus::Blocked);
}

#[test]
fn category_keys_and_local_finding_shape() {
    assert_eq!(ReviewCategory::JapaneseClarity.key(), "japanese_clarity");
    assert_eq!(ReviewCategory::CommentImplementationDrift.key(), "comment_implementation_drift");
    assert!(ReviewCategory::CodeContradiction.is_code_related());
    assert!(!ReviewCategory::TextContradiction.is_code_related());
    let findings = local_findings(ReviewTarget::Prompt, "なるべく早く");
    assert_eq!(findings.len(), 1);
    assert_eq!(findings[0].id, "local:japanese_clarity");
    assert_eq!(findings[0].message, "日本語のわかりにくい表現を確認してください（ambiguous_expression）。");
    assert_eq!(findings[0].evidence_digest, sha256_hex("japanese_clarity:ambiguous_expression"));
    assert!(findings[0].fixable);
}

#[test]
fn fix_gate_and_operation_checks_follow_the_review() {
    assert_eq!(fix_gate(false, true, ReviewStatus::Completed, true, 2).unwrap().status, FixStatus::NotRequested);
    let blocked = fix_gate(true, true, ReviewStatus::Degraded, true, 2).unwrap();
    assert_eq!(blocked.status, FixStatus::Blocked);
    assert_eq!(blocked.skipped_count, 2);
    assert_eq!(fix_gate(true, true, ReviewStatus::Completed, false, 2).unwrap().status, FixStatus::Blocked);
    assert_eq!(fix_gate(true, true, ReviewStatus::Completed, true, 0).unwrap().status, FixStatus::Skipped);
    assert!(fix_gate(true, true, ReviewStatus::Completed, true, 1).is_none());

    let op = FixOperation {
        path: "src/file.rs".to_owned(),
        expected_sha256: sha256_hex("old"),
        replacement_sha256: sha256_hex("new"),
        replacement: Some("new".to_owned()),
    };
    assert_eq!(check_fix_operation(&op, Some("old")), FixCheck::Write);
    assert_eq!(check_fix_operation(&op, Some("changed")), FixCheck::Mismatch);
    assert_eq!(check_fix_operation(&op, None), FixCheck::Skip);
    let unsafe_op = FixOperation { path: ".env".to_owned(), ..op.clone() };
    assert_eq!(check_fix_operation(&unsafe_op, Some("old")), FixCheck::Skip);
    let tampered = FixOperation { replacement: Some("other".to_owned()), ..op };
    assert_eq!(check_fix_operation(&tampered, Some("old")), FixCheck::Skip);

    let all = finish_fix_application(&vec![FixStep::Written, FixStep::Written]);
    assert_eq!(all.status, FixStatus::Applied);
    assert_eq!(all.reason, "fix_application_finished_without_backup");
    let partial = finish_fix_application(&vec![FixStep::Written, FixStep::Skipped]);
    assert_eq!(partial.status, FixStatus::Partial);
    assert_eq!(partial.skipped_count, 1);
    let mismatch = finish_fix_application(&vec![FixStep::Mismatch]);
    assert_eq!(mismatch.status, FixStatus::Skipped);
    assert_eq!(mismatch.reason, "expected_hash_mismatch_prevented_overwrite");
    assert_eq!(finish_fix_application(&vec![FixStep::Skipped]).status, FixStatus::Failed);
}

fn receipt(status: ReviewStatus, route_status: RouteStatus, total: CostStatus) -> ReviewReceiptFacts {
    ReviewReceiptFacts {
        status,
        finding_count: 0,
        route_status,
        latency_ms: 1,
        calls: 0,
        retries: 0,
        cache_hit: None,
        input_tokens: None,
        output_tokens: None,
        jev_cost_status: total,
        codex_cost_status: total,
        total_cost_status: total,
        additional_input_tokens: None,
        additional_output_tokens: None,
        additional_reasoning_tokens: None,
    }
}

#[test]
fn review_stats_cover_status_route_and_unknown_cost_dimensions() {
    let mut stats = ReviewCounts::new();
    assert_eq!(stats.events, 0);
    let receipts = [
        receipt(ReviewStatus::NoFindings, RouteStatus::Applied, CostStatus::Available),
        receipt(ReviewStatus::Unknown, RouteStatus::Degraded, CostStatus::Unknown),
        receipt(ReviewStatus::Failed, RouteStatus::Failed, CostStatus::Unavailable),
    ];
    for r in receipts.iter() {
        assert!(stats.has_room_for(r));
        stats.add(r);
    }
    assert_eq!(stats.none, 1);
    assert_eq!(stats.unknown, 1);
    assert_eq!(stats.failed, 1);
    assert_eq!(stats.route_applied, 1);
    assert_eq!(stats.route_degraded, 1);
    assert_eq!(stats.route_failed, 1);
    let table = stats.cost_status_table();
    let get = |key: &str| table.iter().find(|(k, _)| k == key).map(|(_, v)| *v);
    assert_eq!(get("total:available"), Some(1));
    assert_eq!(get("total:unknown"), Some(1));
    assert_eq!(get("total:unavailable"), Some(1));
    assert_eq!(stats.latency_percentiles(), (Some(1), Some(1)));
}

#[test]
fn review_stats_add_tokens_and_cache_attempts() {
    let mut stats = ReviewCounts::new();
    let mut r = receipt(ReviewStatus::Completed, RouteStatus::Applied, CostStatus::Available);
    r.finding_count = 2;
    r.cache_hit = Some(true);
    r.input_tokens = Some(u64::MAX);
    r.calls = 3;
    stats.add(&r);
    r.cache_hit = Some(false);
    r.input_tokens = Some(5);
    stats.add(&r);
    assert_eq!(stats.completed, 2);
    assert_eq!(stats.findings, 4);
    assert_eq!(stats.calls, 6);
    assert_eq!(stats.cache_attempts, 2);
    assert_eq!(stats.cache_hits, 1);
    assert_eq!(stats.input_tokens, Some(u64::MAX));
    assert_eq!(stats.output_tokens, None);
}

#[test]
fn response_replay_id_does_not_contain_review_body() {
    let request = ReviewRequest::from_content(ReviewTarget::Diff, Some("secret=fixture-only"), None, false);
    let id = review_replay_id(&request.content_digest, ReviewStatus::Degraded, &Vec::new());
    assert_eq!(id.len(), 64);
    assert!(!id.contains("secret"));
    assert!(!id.contains("fixture-only"));
    let expected = sha256_hex(&format!("{}:{}:degraded:", REVIEW_CONTRACT_VERSION, request.content_digest));
    assert_eq!(id, expected);
    let with_evidence = review_replay_id(&request.content_digest, ReviewStatus::Degraded, &vec!["a".to_owned(), "b".to_owned()]);
    assert_eq!(
        with_evidence,
        sha256_hex(&format!("{}:{}:degraded:a:b", REVIEW_CONTRACT_VERSION, request.content_digest))
    );
}

#[test]
fn review_gate_and_judge_failures_are_explicit() {
    assert_eq!(review_gate(false, true, true), Some("content_opt_in_required"));
    assert_eq!(review_gate(true, true, true), Some("state_degraded"));
    assert_eq!(review_gate(true, false, false), Some("missing_api_key"));
    assert_eq!(review_gate(true, false, true), None);
    let timeout = judge_failure(&JevxError::TimeoutWithMetrics { calls: 2, retries: 1, response_ms: 30 });
    assert_eq!((timeout.calls, timeout.retries, timeout.response_ms, timeout.fallback), (2, 1, 30, "timeout"));
    assert_eq!(timeout.cache_hit, Some(false));
    let missing = judge_failure(&JevxError::MissingApiKey);
    assert_eq!(missing.fallback, "missing_api_key");
    assert_eq!(missing.cache_hit, None);
    assert_eq!(judge_failure(&JevxError::InvalidInput("x".to_owned())).fallback, "contract_failure");
    assert_eq!(judge_failure(&JevxError::Provider("x".to_owned())).fallback, "provider_error");
    assert_eq!(review_status(true, 3), ReviewStatus::Degraded);
    assert_eq!(review_status(false, 0), ReviewStatus::NoFindings);
    assert_eq!(review_status(false, 1), ReviewStatus::Completed);
    assert!(known_no_external_review(Some("state_degraded")));
    assert!(!known_no_external_review(Some("timeout")));
    assert!(!known_no_external_review(None));
}

#[test]
fn review_stats_totals_agree_across_statuses_and_costs() {
    let mut stats = ReviewCounts::new();
    let mut cached = receipt(ReviewStatus::Completed, RouteStatus::Applied, CostStatus::Available);
    cached.cache_hit = Some(true);
    let receipts = [
        cached,
        receipt(ReviewStatus::NoFindings, RouteStatus::Degraded, CostStatus::Unknown),
        receipt(ReviewStatus::Degraded, RouteStatus::Failed, CostStatus::Unavailable),
        receipt(ReviewStatus::Failed, RouteStatus::Failed, CostStatus::Available),
    ];
    for r in receipts.iter() {
        assert!(stats.has_room_for(r));
        stats.add(r);
    }
    assert_eq!(stats.completed + stats.none + stats.unknown + stats.degraded + stats.failed, stats.events);
    assert_eq!(stats.route_applied + stats.route_degraded + stats.route_failed, stats.events);
    assert!(stats.cache_hits <= stats.cache_attempts && stats.cache_attempts <= stats.events);
    assert_eq!(stats.latencies.len(), stats.events);
    let table = stats.cost_status_table();
    for part in ["jev", "codex", "total"] {
        let sum: usize = table.iter().filter(|(k, _)| k.starts_with(&format!("{part}:"))).map(|(_, v)| *v).sum();
        assert_eq!(sum, 4);
    }
}

#[test]
fn a_review_without_content_opt_in_stops_degraded_before_the_judge() {
    let op = FixOperation {
        path: "src/file.rs".to_owned(),
        expected_sha256: sha256_hex("old"),
        replacement_sha256: sha256_hex("new"),
        replacement: Some("new".to_owned()),
    };
    for (state_degraded, has_judge) in [(false, true), (true, true), (false, false), (true, false)] {
        let gated = gated_review(false, state_degraded, has_judge, FixPlan::requested(vec![op.clone()])).expect("gated");
        assert_eq!(gated.status, ReviewStatus::Degraded);
        assert_eq!(gated.fallback, "content_opt_in_required");
        assert_eq!(gated.route.status, RouteStatus::Failed);
        assert_eq!(gated.route.difficulty, TaskDifficulty::Unknown);
        assert!(gated.route.model.is_none());
        assert_eq!(gated.route.reason, "content_opt_in_required");
        assert_eq!((gated.calls, gated.retries, gated.response_ms), (0, 0, 0));
        assert_eq!(gated.fix_plan.status, FixStatus::Blocked);
        assert_eq!(gated.fix_plan.reason, "content_opt_in_required");
        assert_eq!(gated.fix_plan.operations, vec![op.clone()]);
    }
    let unrequested = gated_review(false, false, true, FixPlan::not_requested()).expect("gated");
    assert_eq!(unrequested.fix_plan, FixPlan::not_requested());

    let degraded = gated_review(true, true, true, FixPlan::not_requested()).expect("gated");
    assert_eq!(degraded.fallback, "state_degraded");
    assert_eq!(degraded.route.reason, "state_degraded");
    let keyless = gated_review(true, false, false, FixPlan::not_requested()).expect("gated");
    assert_eq!(keyless.fallback, "missing_api_key");
    assert!(gated_review(true, false, true, FixPlan::requested(vec![op])).is_none());
}

#[test]
fn counting_a_file_of_receipts_agrees_with_its_lines() {
    let empty = count_receipts(&Vec::new()).expect("counts");
    assert_eq!(empty.events, 0);
    assert_eq!(empty.latency_percentiles(), (None, None));
    assert!(empty.input_tokens.is_none());
    assert!(empty.cost_status_table().is_empty());

    let mut cached = receipt(ReviewStatus::Completed, RouteStatus::Applied, CostStatus::Available);
    cached.cache_hit = Some(true);
    cached.finding_count = 2;
    cached.calls = 1;
    cached.input_tokens = Some(10);
    let mut missed = receipt(ReviewStatus::Degraded, RouteStatus::Failed, CostStatus::Unknown);
    missed.cache_hit = Some(false);
    missed.latency_ms = 9;
    missed.input_tokens = Some(u64::MAX);
    let receipts = vec![cached, missed, receipt(ReviewStatus::NoFindings, RouteStatus::Degraded, CostStatus::Unavailable)];
    let counts = count_receipts(&receipts).expect("counts");
    assert_eq!(counts.events, 3);
    assert_eq!((counts.completed, counts.none, counts.degraded, counts.failed, counts.unknown), (1, 1, 1, 0, 0));
    assert_eq!((counts.route_applied, counts.route_degraded, counts.route_failed), (1, 1, 1));
    assert_eq!((counts.cache_attempts, counts.cache_hits), (2, 1));
    assert_eq!((counts.findings, counts.calls, counts.retries), (2, 1, 0));
    assert_eq!(counts.latencies, vec![1, 9, 1]);
    assert_eq!(counts.input_tokens, Some(u64::MAX));
    assert!(counts.output_tokens.is_none());
    let table = counts.cost_status_table();
    for part in ["jev", "codex", "total"] {
        let sum: usize = table.iter().filter(|(k, _)| k.starts_with(&format!("{part}:"))).map(|(_, v)| *v).sum();
        assert_eq!(sum, 3);
    }

    let mut huge = receipt(ReviewStatus::Completed, RouteStatus::Applied, CostStatus::Available);
    huge.finding_count = usize::MAX;
    let mut one = receipt(ReviewStatus::Completed, RouteStatus::Applied, CostStatus::Available);
    one.finding_count = 1;
    assert!(count_receipts(&vec![huge.clone()]).is_some());
    assert!(count_receipts(&vec![huge, one]).is_none());
}
