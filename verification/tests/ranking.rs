use jevx::decision::{DecisionStatus, FallbackReason};
use jevx::error::JevxError;
use jevx::ranking::{
    execution_error, fallback_code, find_explicit_skill, local_score, rank_candidates,
    redaction_reasons, settle_choice, truncate_text, try_local_score,
};
use jevx::types::{CandidateDecision, SkillRecord};

fn skill(id: &str, description: &str) -> SkillRecord {
    SkillRecord::new(id.to_owned(), description.to_owned(), format!("/{id}/SKILL.md"), "test".to_owned())
}

#[test]
fn fallback_codes_and_truncation_are_deterministic() {
    let fallbacks = [
        FallbackReason::NoneSelected,
        FallbackReason::BelowProbabilityThreshold,
        FallbackReason::BelowMarginThreshold,
        FallbackReason::BelowScoreThreshold,
        FallbackReason::LowConfidence,
        FallbackReason::AmbiguousPredicate,
        FallbackReason::MissingAnswer,
        FallbackReason::UnknownChoice,
        FallbackReason::MalformedAnswer,
        FallbackReason::DryRun,
        FallbackReason::MissingApiKey,
        FallbackReason::Timeout,
        FallbackReason::ProviderError,
        FallbackReason::StateDegraded,
        FallbackReason::InvalidPolicy,
    ];
    for fallback in fallbacks {
        assert!(fallback_code(Some(fallback)).is_some());
    }
    assert!(fallback_code(None).is_none());
    assert_eq!(truncate_text("short", 32), "short");
    assert!(truncate_text("日本語の長い状態", 4).ends_with("<truncated>"));
}

#[test]
fn execution_error_mapping_is_safe_for_unknown_and_missing_messages() {
    assert!(execution_error(None, None).is_none());
    assert!(matches!(execution_error(Some("unknown"), None), Some(JevxError::Provider(message)) if message.contains("評価")));
    assert!(matches!(execution_error(Some("provider_error"), None), Some(JevxError::Provider(message)) if message.contains("評価")));
    assert!(matches!(execution_error(Some("provider_error"), Some("safe failure")), Some(JevxError::Provider(message)) if message == "safe failure"));
    assert!(matches!(execution_error(Some("missing_api_key"), None), Some(JevxError::MissingApiKey)));
    assert!(matches!(execution_error(Some("timeout"), None), Some(JevxError::Timeout)));
    assert!(matches!(execution_error(Some("state_degraded"), None), Some(JevxError::InvalidInput(_))));
}

#[test]
fn fallback_code_values_and_truncation_budget() {
    assert_eq!(fallback_code(Some(FallbackReason::MissingAnswer)).as_deref(), Some("missing_choice"));
    assert_eq!(fallback_code(Some(FallbackReason::InvalidPolicy)).as_deref(), Some("invalid_policy"));
    // A text within the limit is kept; otherwise the limit less the 11-byte marker is
    // filled with whole characters.
    assert_eq!(truncate_text("abcdefgh日本", 14), "abcdefgh日本");
    assert_eq!(truncate_text("abcdefghij日本語", 18), "abcdefg<truncated>");
    assert_eq!(truncate_text("日本語日本語日本語", 20), "日本語<truncated>");
    assert_eq!(truncate_text("日本語日本語日本語", 19), "日本<truncated>");
}

#[test]
fn local_score_counts_each_signal() {
    let pdf = skill("pdf", "Extract text from pdf files");
    // exact name (1000) + containment (100) + description containment (60)
    // + one name token (20) + one description token (5) + two shared bigrams (6)
    assert_eq!(local_score("pdf", &pdf), 1191);
    assert_eq!(try_local_score("pdf", &pdf), Some(1191));
    assert_eq!(local_score("zzz", &pdf), 0);
    assert_eq!(local_score("PDF", &pdf), 1191);
}

#[test]
fn ranking_is_by_score_then_name_and_truncated() {
    let skills = vec![skill("beta", "alpha tool"), skill("Alpha", "alpha tool"), skill("gamma", "other")];
    let ranking = rank_candidates("alpha", &skills, 2);
    assert_eq!(ranking.candidates.len(), 2);
    assert_eq!(ranking.omitted_candidates, 1);
    assert_eq!(ranking.candidates[0].1.id, "Alpha");
    assert_eq!(ranking.candidates[1].1.id, "beta");
    assert!(ranking.candidates[0].0 > ranking.candidates[1].0);
    let ties = vec![skill("b", ""), skill("A", ""), skill("a2", "")];
    let order = rank_candidates("zzz", &ties, 10);
    let ids = order.candidates.iter().map(|(_, s)| s.id.clone()).collect::<Vec<_>>();
    assert_eq!(ids, vec!["A", "a2", "b"]);
}

#[test]
fn explicit_skill_and_choice_settlement() {
    let skills = vec![skill("pdf", "a"), skill("docx", "b")];
    assert_eq!(find_explicit_skill(&skills, "DOCX"), Some(1));
    assert_eq!(find_explicit_skill(&skills, "xlsx"), None);
    let ranked = rank_candidates("pdf", &skills, 10).candidates;
    let chosen = settle_choice(&ranked, DecisionStatus::Accepted, Some("docx"), None);
    assert_eq!(chosen.decision, CandidateDecision::Selected);
    assert_eq!(ranked[chosen.selected.unwrap()].1.id, "docx");
    let unknown = settle_choice(&ranked, DecisionStatus::Accepted, Some("xlsx"), None);
    assert_eq!(unknown.reason_code.as_deref(), Some("unknown_choice"));
    let none = settle_choice(&ranked, DecisionStatus::Accepted, Some("none"), Some(FallbackReason::NoneSelected));
    assert_eq!(none.decision, CandidateDecision::NoMatch);
    assert_eq!(none.reason_code.as_deref(), Some("none_selected"));
    let deferred = settle_choice(&ranked, DecisionStatus::Defer, Some("pdf"), Some(FallbackReason::BelowMarginThreshold));
    assert!(deferred.selected.is_none());
    assert_eq!(deferred.reason_code.as_deref(), Some("below_margin_threshold"));
    assert_eq!(redaction_reasons(true, false, true), vec!["prompt_secret_pattern", "candidate_secret_pattern"]);
}
