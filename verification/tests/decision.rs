use std::collections::BTreeMap;

use jevx::error::JevxError;
use jevx::types::SuggestInput;

use jevx::decision::{
    answered_calls, contract_ids_valid, execution_start, judge_error_failure, DecisionMode,
    ExecutionStart,
    choice_verdict, failure_outcome, predicate_verdict, score_verdict, state_is_degraded,
    decide, precheck_verdict, verdict_outcome, DecisionFailure, DecisionStatus, FallbackReason, PredicateCriteria,
    QuestionSpec, Verdict,
};

#[test]
fn questions_are_validated_by_shape() {
    let mut criteria = BTreeMap::new();
    criteria.insert("a".to_owned(), "first".to_owned());
    let choice = QuestionSpec::Choice { instructions: "pick".to_owned(), criteria };
    assert!(choice.validate().is_ok());
    assert!(choice.is_choice());
    let empty = QuestionSpec::Choice { instructions: "pick".to_owned(), criteria: BTreeMap::new() };
    assert!(empty.validate().is_err());
    let score = QuestionSpec::Score { instructions: "rate".to_owned(), criteria: vec!["low".to_owned()] };
    assert!(score.validate().is_err());
    assert!(!score.is_choice());
    let score = QuestionSpec::Score { instructions: "rate".to_owned(), criteria: vec!["low".to_owned(), "high".to_owned()] };
    assert!(score.validate().is_ok());
    let predicate = QuestionSpec::Predicate {
        instructions: "judge".to_owned(),
        criteria: PredicateCriteria { true_criteria: "yes".to_owned(), false_criteria: " ".to_owned() },
    };
    assert!(predicate.validate().is_err());
}

#[test]
fn verdicts_follow_the_check_order() {
    assert_eq!(choice_verdict(true, true, true), Verdict::NoneSelected);
    assert_eq!(choice_verdict(false, true, true), Verdict::BelowProbability);
    assert_eq!(choice_verdict(false, false, true), Verdict::BelowMargin);
    assert_eq!(choice_verdict(false, false, false), Verdict::Accepted);
    assert_eq!(score_verdict(true, true), Verdict::LowConfidence);
    assert_eq!(score_verdict(false, true), Verdict::BelowScore);
    assert_eq!(predicate_verdict(false, true), Verdict::Accepted);
    assert_eq!(predicate_verdict(false, false), Verdict::AmbiguousPredicate);
    assert_eq!(verdict_outcome(Verdict::BelowScore), (DecisionStatus::NoneChosen, Some(FallbackReason::BelowScoreThreshold), "score_below_threshold"));
    assert_eq!(verdict_outcome(Verdict::Accepted), (DecisionStatus::Accepted, None, "accepted"));
    assert_eq!(failure_outcome(DecisionFailure::StateDegraded), (DecisionStatus::Degraded, FallbackReason::StateDegraded, "state_degraded"));
    assert_eq!(failure_outcome(DecisionFailure::Timeout), (DecisionStatus::Defer, FallbackReason::Timeout, "timeout"));
    assert!(state_is_degraded(0, 0, 10, None, 0, None));
    assert!(state_is_degraded(1, 0, 10, Some(5), 0, None));
    assert!(!state_is_degraded(1, 0, 10, Some(10), 3, Some(3)));
}

#[test]
fn execution_starts_in_order_of_contract_state_and_mode() {
    assert!(matches!(execution_start(false, true, DecisionMode::Live), ExecutionStart::InvalidContract));
    assert!(matches!(
        execution_start(true, true, DecisionMode::Live),
        ExecutionStart::Fail(DecisionFailure::StateDegraded, Some("state_degraded"))
    ));
    assert!(matches!(
        execution_start(true, false, DecisionMode::DryRun),
        ExecutionStart::Fail(DecisionFailure::DryRun, None)
    ));
    assert!(matches!(
        execution_start(true, false, DecisionMode::Replay),
        ExecutionStart::Fail(DecisionFailure::Provider, Some("replay_answer_missing"))
    ));
    assert!(matches!(execution_start(true, false, DecisionMode::Live), ExecutionStart::Proceed));
}

#[test]
fn judge_errors_map_to_failures_with_their_metrics() {
    let (f, code, metrics) = judge_error_failure(&JevxError::ProviderWithMetrics {
        message: "x".to_owned(),
        calls: 2,
        retries: 1,
        response_ms: 40,
    });
    assert_eq!((f, code, metrics), (DecisionFailure::Provider, "provider_error", Some((40, 2, 1))));
    assert_eq!(judge_error_failure(&JevxError::MissingApiKey).1, "missing_api_key");
    assert_eq!(judge_error_failure(&JevxError::Timeout).0, DecisionFailure::Timeout);
    assert_eq!(judge_error_failure(&JevxError::InvalidInput("x".to_owned())).1, "invalid_input");
    assert_eq!(judge_error_failure(&JevxError::Io(std::io::Error::other("x"))).1, "io_error");
    assert_eq!(answered_calls(0), 1);
    assert_eq!(answered_calls(3), 3);
}

#[test]
fn contract_identifiers_must_not_be_blank() {
    assert!(contract_ids_valid(&"q".to_owned(), &"1".to_owned(), &"p".to_owned()));
    assert!(!contract_ids_valid(&" ".to_owned(), &"1".to_owned(), &"p".to_owned()));
    assert!(!contract_ids_valid(&"q".to_owned(), &"".to_owned(), &"p".to_owned()));
}

#[test]
fn suggest_input_from_fields_requires_a_prompt() {
    let input = SuggestInput::from_fields("hello", None, Some("pdf".to_owned()));
    let input = input.expect("input");
    assert_eq!(input.prompt, "hello");
    assert_eq!(input.explicit_skill.as_deref(), Some("pdf"));
    assert!(SuggestInput::from_fields("   ", None, None).is_err());
}

#[test]
fn prechecks_run_in_order_and_rejected_answers_are_dropped() {
    assert_eq!(precheck_verdict(false, false, true, true), Some(Verdict::InvalidPolicy));
    assert_eq!(precheck_verdict(true, false, true, true), Some(Verdict::MissingAnswer));
    assert_eq!(precheck_verdict(true, true, true, true), Some(Verdict::UnknownChoice));
    assert_eq!(precheck_verdict(true, true, false, true), Some(Verdict::MalformedAnswer));
    assert_eq!(precheck_verdict(true, true, false, false), None);

    let accepted = decide(Verdict::Accepted, Some(7u8));
    assert_eq!(accepted.status, DecisionStatus::Accepted);
    assert!(accepted.fallback.is_none());
    assert_eq!(accepted.reason, "accepted");
    assert_eq!(accepted.answer, Some(7));
    let deferred = decide(Verdict::BelowMargin, Some(7u8));
    assert_eq!(deferred.status, DecisionStatus::Defer);
    assert_eq!(deferred.fallback, Some(FallbackReason::BelowMarginThreshold));
    assert_eq!(deferred.answer, Some(7));
    let none = decide(Verdict::NoneSelected, Some(7u8));
    assert_eq!(none.status, DecisionStatus::NoneChosen);
    assert_eq!(none.answer, Some(7));
    for verdict in [Verdict::InvalidPolicy, Verdict::MissingAnswer, Verdict::UnknownChoice, Verdict::MalformedAnswer, Verdict::PolicyMismatch] {
        let dropped = decide(verdict, Some(7u8));
        assert_eq!(dropped.status, DecisionStatus::Unknown);
        assert!(dropped.fallback.is_some());
        assert!(dropped.answer.is_none());
    }
    let mismatch = decide(Verdict::PolicyMismatch, Some(1u8));
    assert_eq!(mismatch.fallback, Some(FallbackReason::MalformedAnswer));
    assert_eq!(mismatch.reason, "policy_question_mismatch");
}
