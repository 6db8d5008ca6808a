//! Decision contracts: the questions put to the judge, and how an answer becomes a status.
//!
//! The thresholds a policy compares probabilities against are floating-point; those
//! comparisons are made by the caller and arrive here as booleans. What is decided here is
//! which question is well-formed, in which order the checks apply and which status,
//! fallback reason and reason code each outcome gets.

use vstd::prelude::*;
use std::collections::BTreeMap;

use crate::error::JevxError;
use crate::text::{all_whitespace, all_ws, chars_of};

verus! {

#[derive(Debug, Clone, Copy, PartialEq, Eq, Structural)]
pub enum DecisionMode {
    Live,
    DryRun,
    Replay,
}

#[derive(Debug, Clone, Copy, PartialEq, Eq, Structural)]
pub enum Severity {
    Advisory,
    Low,
    Medium,
    High,
    Critical,
}

#[derive(Debug, Clone, Copy, PartialEq, Eq, Structural)]
pub enum DecisionStatus {
    Accepted,
    /// The judge's answer selects nothing (recorded as `none`).
    NoneChosen,
    Unknown,
    Defer,
    Degraded,
}

#[derive(Debug, Clone, Copy, PartialEq, Eq, Structural)]
pub enum DecisionFailure {
    DryRun,
    MissingApiKey,
    Timeout,
    Provider,
    StateDegraded,
}

#[derive(Debug, Clone, Copy, PartialEq, Eq, Structural)]
pub enum FallbackReason {
    NoneSelected,
    BelowProbabilityThreshold,
    BelowMarginThreshold,
    BelowScoreThreshold,
    LowConfidence,
    AmbiguousPredicate,
    MissingAnswer,
    UnknownChoice,
    MalformedAnswer,
    DryRun,
    MissingApiKey,
    Timeout,
    ProviderError,
    StateDegraded,
    InvalidPolicy,
}

#[derive(Debug, Clone, PartialEq, Eq)]
pub struct PredicateCriteria {
    pub true_criteria: String,
    pub false_criteria: String,
}

/// A question for the judge.
#[derive(Debug, Clone)]
pub enum QuestionSpec {
    Choice { instructions: String, criteria: BTreeMap<String, String> },
    Score { instructions: String, criteria: Vec<String> },
    Predicate { instructions: String, criteria: PredicateCriteria },
}

/// A question is well-formed when its instructions are not blank and: a choice has 1 to 255
/// options; a score has 2 to 10 levels; a predicate has non-blank true and false criteria.
pub open spec fn question_is_valid(q: QuestionSpec) -> bool {
    match q {
        QuestionSpec::Choice { instructions, criteria } => !all_ws(instructions@) && 1
            <= criteria.len() <= 255,
        QuestionSpec::Score { instructions, criteria } => !all_ws(instructions@) && 2
            <= criteria@.len() <= 10,
        QuestionSpec::Predicate { instructions, criteria } => !all_ws(instructions@) && !all_ws(
            criteria.true_criteria@,
        ) && !all_ws(criteria.false_criteria@),
    }
}

pub open spec fn question_error_message(q: QuestionSpec) -> Seq<char> {
    match q {
        QuestionSpec::Choice { .. } => "choice question is empty or exceeds the option limit"@,
        QuestionSpec::Score { .. } => "score question must contain 2 to 10 levels"@,
        QuestionSpec::Predicate { .. } => "predicate question requires true and false criteria"@,
    }
}

pub fn is_blank(s: &String) -> (res: bool)
    ensures
        res == all_ws(s@),
{
    let c = chars_of(s.as_str());
    all_whitespace(&c)
}

impl QuestionSpec {
    pub fn validate(&self) -> (res: Result<(), JevxError>)
        ensures
            res is Ok <==> question_is_valid(*self),
            res matches Err(e) ==> e matches JevxError::InvalidInput(m) && m@
                == question_error_message(*self),
    {
        match self {
            QuestionSpec::Choice { instructions, criteria } => {
                if is_blank(instructions) || criteria.len() == 0 || criteria.len() > 255 {
                    return Err(
                        JevxError::invalid_input(
                            "choice question is empty or exceeds the option limit",
                        ),
                    );
                }
            },
            QuestionSpec::Score { instructions, criteria } => {
                if is_blank(instructions) || criteria.len() < 2 || criteria.len() > 10 {
                    return Err(
                        JevxError::invalid_input("score question must contain 2 to 10 levels"),
                    );
                }
            },
            QuestionSpec::Predicate { instructions, criteria } => {
                if is_blank(instructions) || is_blank(&criteria.true_criteria) || is_blank(
                    &criteria.false_criteria,
                ) {
                    return Err(
                        JevxError::invalid_input(
                            "predicate question requires true and false criteria",
                        ),
                    );
                }
            },
        }
        Ok(())
    }

    pub fn is_choice(&self) -> (res: bool)
        ensures
            res == (*self is Choice),
    {
        match self {
            QuestionSpec::Choice { .. } => true,
            _ => false,
        }
    }
}

/// The request sent to a decision judge: the redacted state and the questions by id.
#[derive(Debug, Clone)]
pub struct DecisionRequest {
    pub state: String,
    pub questions: BTreeMap<String, QuestionSpec>,
}

#[derive(Debug, Clone, Copy, PartialEq, Eq, Structural)]
pub enum CacheLookup {
    Miss,
    Hit,
}

/// Each way the evaluation of an answer can end.
#[derive(Debug, Clone, Copy, PartialEq, Eq, Structural)]
pub enum Verdict {
    InvalidPolicy,
    MissingAnswer,
    UnknownChoice,
    MalformedAnswer,
    NoneSelected,
    BelowProbability,
    BelowMargin,
    LowConfidence,
    BelowScore,
    AmbiguousPredicate,
    PolicyMismatch,
    Accepted,
}

/// The status, fallback reason and reason code of each verdict.
pub open spec fn spec_verdict_outcome(v: Verdict) -> (DecisionStatus, Option<FallbackReason>, Seq<char>) {
    match v {
        Verdict::InvalidPolicy => (DecisionStatus::Unknown, Some(FallbackReason::InvalidPolicy), "invalid_policy"@),
        Verdict::MissingAnswer => (DecisionStatus::Unknown, Some(FallbackReason::MissingAnswer), "answer_missing"@),
        Verdict::UnknownChoice => (DecisionStatus::Unknown, Some(FallbackReason::UnknownChoice), "answer_invalid"@),
        Verdict::MalformedAnswer => (DecisionStatus::Unknown, Some(FallbackReason::MalformedAnswer), "answer_invalid"@),
        Verdict::NoneSelected => (DecisionStatus::NoneChosen, Some(FallbackReason::NoneSelected), "none_selected"@),
        Verdict::BelowProbability => (DecisionStatus::Defer, Some(FallbackReason::BelowProbabilityThreshold), "probability_below_threshold"@),
        Verdict::BelowMargin => (DecisionStatus::Defer, Some(FallbackReason::BelowMarginThreshold), "margin_below_threshold"@),
        Verdict::LowConfidence => (DecisionStatus::Defer, Some(FallbackReason::LowConfidence), "confidence_below_threshold"@),
        Verdict::BelowScore => (DecisionStatus::NoneChosen, Some(FallbackReason::BelowScoreThreshold), "score_below_threshold"@),
        Verdict::AmbiguousPredicate => (DecisionStatus::Defer, Some(FallbackReason::AmbiguousPredicate), "predicate_ambiguous"@),
        Verdict::PolicyMismatch => (DecisionStatus::Unknown, Some(FallbackReason::MalformedAnswer), "policy_question_mismatch"@),
        Verdict::Accepted => (DecisionStatus::Accepted, None, "accepted"@),
    }
}

pub fn verdict_outcome(v: Verdict) -> (res: (DecisionStatus, Option<FallbackReason>, &'static str))
    ensures
        res.0 == spec_verdict_outcome(v).0,
        res.1 == spec_verdict_outcome(v).1,
        res.2@ == spec_verdict_outcome(v).2,
{
    match v {
        Verdict::InvalidPolicy => (DecisionStatus::Unknown, Some(FallbackReason::InvalidPolicy), "invalid_policy"),
        Verdict::MissingAnswer => (DecisionStatus::Unknown, Some(FallbackReason::MissingAnswer), "answer_missing"),
        Verdict::UnknownChoice => (DecisionStatus::Unknown, Some(FallbackReason::UnknownChoice), "answer_invalid"),
        Verdict::MalformedAnswer => (DecisionStatus::Unknown, Some(FallbackReason::MalformedAnswer), "answer_invalid"),
        Verdict::NoneSelected => (DecisionStatus::NoneChosen, Some(FallbackReason::NoneSelected), "none_selected"),
        Verdict::BelowProbability => (DecisionStatus::Defer, Some(FallbackReason::BelowProbabilityThreshold), "probability_below_threshold"),
        Verdict::BelowMargin => (DecisionStatus::Defer, Some(FallbackReason::BelowMarginThreshold), "margin_below_threshold"),
        Verdict::LowConfidence => (DecisionStatus::Defer, Some(FallbackReason::LowConfidence), "confidence_below_threshold"),
        Verdict::BelowScore => (DecisionStatus::NoneChosen, Some(FallbackReason::BelowScoreThreshold), "score_below_threshold"),
        Verdict::AmbiguousPredicate => (DecisionStatus::Defer, Some(FallbackReason::AmbiguousPredicate), "predicate_ambiguous"),
        Verdict::PolicyMismatch => (DecisionStatus::Unknown, Some(FallbackReason::MalformedAnswer), "policy_question_mismatch"),
        Verdict::Accepted => (DecisionStatus::Accepted, None, "accepted"),
    }
}

/// The verdict on a well-formed choice answer: `none` first, then the probability of the
/// choice against its threshold, then its margin over the runner-up.
pub fn choice_verdict(chose_none: bool, below_probability: bool, below_margin: bool) -> (res: Verdict)
    ensures
        res == (if chose_none {
            Verdict::NoneSelected
        } else if below_probability {
            Verdict::BelowProbability
        } else if below_margin {
            Verdict::BelowMargin
        } else {
            Verdict::Accepted
        }),
{
    if chose_none {
        Verdict::NoneSelected
    } else if below_probability {
        Verdict::BelowProbability
    } else if below_margin {
        Verdict::BelowMargin
    } else {
        Verdict::Accepted
    }
}

/// The verdict on a well-formed score answer: confidence is checked before the score.
pub fn score_verdict(below_confidence: bool, below_score: bool) -> (res: Verdict)
    ensures
        res == (if below_confidence {
            Verdict::LowConfidence
        } else if below_score {
            Verdict::BelowScore
        } else {
            Verdict::Accepted
        }),
{
    if below_confidence {
        Verdict::LowConfidence
    } else if below_score {
        Verdict::BelowScore
    } else {
        Verdict::Accepted
    }
}

/// The verdict on a well-formed predicate answer: accepted when it clears either threshold.
pub fn predicate_verdict(at_or_above_true: bool, at_or_below_false: bool) -> (res: Verdict)
    ensures
        res == (if at_or_above_true || at_or_below_false {
            Verdict::Accepted
        } else {
            Verdict::AmbiguousPredicate
        }),
{
    if at_or_above_true || at_or_below_false {
        Verdict::Accepted
    } else {
        Verdict::AmbiguousPredicate
    }
}

/// The checks made before an answer's values are weighed, in order: the policy, whether
/// there is an answer, then whether it names a choice the question does not offer, then
/// whether it is otherwise malformed. `None` when all pass.
pub fn precheck_verdict(policy_valid: bool, answer_present: bool, unknown_choice: bool, malformed: bool) -> (res: Option<Verdict>)
    ensures
        res == (if !policy_valid {
            Some(Verdict::InvalidPolicy)
        } else if !answer_present {
            Some(Verdict::MissingAnswer)
        } else if unknown_choice {
            Some(Verdict::UnknownChoice)
        } else if malformed {
            Some(Verdict::MalformedAnswer)
        } else {
            None
        }),
{
    if !policy_valid {
        Some(Verdict::InvalidPolicy)
    } else if !answer_present {
        Some(Verdict::MissingAnswer)
    } else if unknown_choice {
        Some(Verdict::UnknownChoice)
    } else if malformed {
        Some(Verdict::MalformedAnswer)
    } else {
        None
    }
}

/// Whether the result of a verdict keeps the answer: it does unless the policy, or the
/// answer's presence, form or kind, was at fault.
pub open spec fn spec_keeps_answer(v: Verdict) -> bool {
    !(v is InvalidPolicy || v is MissingAnswer || v is UnknownChoice || v is MalformedAnswer || v is PolicyMismatch)
}

/// The status, fallback and reason code of a verdict, with the answer when the verdict
/// keeps it.
pub struct Decided<T> {
    pub status: DecisionStatus,
    pub fallback: Option<FallbackReason>,
    pub reason: &'static str,
    pub answer: Option<T>,
}

pub fn decide<T>(v: Verdict, answer: Option<T>) -> (res: Decided<T>)
    ensures
        res.status == spec_verdict_outcome(v).0,
        res.fallback == spec_verdict_outcome(v).1,
        res.reason@ == spec_verdict_outcome(v).2,
        res.answer == (if spec_keeps_answer(v) { answer } else { None::<T> }),
{
    let (status, fallback, reason) = verdict_outcome(v);
    let keeps = match v {
        Verdict::InvalidPolicy | Verdict::MissingAnswer | Verdict::UnknownChoice | Verdict::MalformedAnswer
        | Verdict::PolicyMismatch => false,
        _ => true,
    };
    Decided { status, fallback, reason, answer: if keeps { answer } else { None } }
}

/// The verdict table: a result has no fallback exactly when it is accepted, is never
/// degraded (only a failure to get an answer is), and loses its answer exactly when its
/// status is unknown. So, for a verdict that an absent answer can get (the policy's or the
/// missing answer's), the answer is absent exactly when the status is unknown, and a kept
/// answer is the one given.
pub proof fn lemma_verdict_table<T>(v: Verdict, answer: Option<T>)
    requires
        answer is None ==> (v is InvalidPolicy || v is MissingAnswer),
    ensures
        spec_verdict_outcome(v).1 is None <==> spec_verdict_outcome(v).0 == DecisionStatus::Accepted,
        spec_verdict_outcome(v).0 != DecisionStatus::Degraded,
        spec_verdict_outcome(v).0 == DecisionStatus::Unknown <==> !spec_keeps_answer(v),
        ({
            let kept = if spec_keeps_answer(v) { answer } else { None::<T> };
            &&& (spec_verdict_outcome(v).0 == DecisionStatus::Unknown <==> kept is None)
            &&& (kept is Some ==> kept == answer)
        }),
{
}

/// What each status of a verdict means: accepted only when the answer is accepted; `none`
/// only when the judge chose none or a score fell below its threshold; deferred when a
/// choice fell below its probability or margin threshold, confidence was low, or a predicate
/// was ambiguous; unknown when the policy or the answer's presence, form or kind was at
/// fault. And each verdict has its own fallback reason, except that a mismatch between
/// policy and answer is reported as a malformed answer.
pub proof fn lemma_verdict_statuses(v: Verdict, w: Verdict)
    ensures
        spec_verdict_outcome(v).0 == DecisionStatus::Accepted <==> v is Accepted,
        spec_verdict_outcome(v).0 == DecisionStatus::NoneChosen <==> (v is NoneSelected || v is BelowScore),
        spec_verdict_outcome(v).0 == DecisionStatus::Defer <==> (v is BelowProbability || v is BelowMargin
            || v is LowConfidence || v is AmbiguousPredicate),
        spec_verdict_outcome(v).0 == DecisionStatus::Unknown <==> (v is InvalidPolicy || v is MissingAnswer
            || v is UnknownChoice || v is MalformedAnswer || v is PolicyMismatch),
        spec_verdict_outcome(v).1 == spec_verdict_outcome(w).1 && v != w ==> (
            (v is MalformedAnswer && w is PolicyMismatch) || (v is PolicyMismatch && w is MalformedAnswer)),
{
}

spec fn reason_shape(v: Verdict) -> (int, char, char) {
    match v {
        Verdict::InvalidPolicy => (14, 'i', '_'),
        Verdict::MissingAnswer => (14, 'a', 'm'),
        Verdict::UnknownChoice => (14, 'a', 'i'),
        Verdict::MalformedAnswer => (14, 'a', 'i'),
        Verdict::NoneSelected => (13, 'n', 'l'),
        Verdict::BelowProbability => (27, 'p', 'l'),
        Verdict::BelowMargin => (22, 'm', 'b'),
        Verdict::LowConfidence => (26, 'c', 'n'),
        Verdict::BelowScore => (21, 's', 'e'),
        Verdict::AmbiguousPredicate => (19, 'p', 't'),
        Verdict::PolicyMismatch => (24, 'p', 'q'),
        Verdict::Accepted => (8, 'a', 'd'),
    }
}

proof fn lemma_reason_shape(v: Verdict)
    ensures
        spec_verdict_outcome(v).2.len() >= 8,
        (spec_verdict_outcome(v).2.len() as int, spec_verdict_outcome(v).2[0], spec_verdict_outcome(v).2[7]) == reason_shape(v),
{
    reveal_strlit("invalid_policy");
    reveal_strlit("answer_missing");
    reveal_strlit("answer_invalid");
    reveal_strlit("none_selected");
    reveal_strlit("probability_below_threshold");
    reveal_strlit("margin_below_threshold");
    reveal_strlit("confidence_below_threshold");
    reveal_strlit("score_below_threshold");
    reveal_strlit("predicate_ambiguous");
    reveal_strlit("policy_question_mismatch");
    reveal_strlit("accepted");
}

/// Each verdict has its own reason code, except that an unknown choice and a malformed
/// answer are both reported as an invalid answer; and only the accepted verdict is reported
/// as accepted.
pub proof fn lemma_verdict_reasons(v: Verdict, w: Verdict)
    ensures
        spec_verdict_outcome(v).2 == spec_verdict_outcome(w).2 && v != w ==> (
            (v is UnknownChoice && w is MalformedAnswer) || (v is MalformedAnswer && w is UnknownChoice)),
        spec_verdict_outcome(v).2 == spec_verdict_outcome(Verdict::Accepted).2 <==> v is Accepted,
{
    lemma_reason_shape(v);
    lemma_reason_shape(w);
    lemma_reason_shape(Verdict::Accepted);
}

/// The status, fallback and reason code when no answer could be had.
pub open spec fn spec_failure_outcome(f: DecisionFailure) -> (DecisionStatus, FallbackReason, Seq<char>) {
    match f {
        DecisionFailure::DryRun => (DecisionStatus::Defer, FallbackReason::DryRun, "dry_run"@),
        DecisionFailure::MissingApiKey => (DecisionStatus::Defer, FallbackReason::MissingApiKey, "missing_api_key"@),
        DecisionFailure::Timeout => (DecisionStatus::Defer, FallbackReason::Timeout, "timeout"@),
        DecisionFailure::Provider => (DecisionStatus::Defer, FallbackReason::ProviderError, "provider_error"@),
        DecisionFailure::StateDegraded => (DecisionStatus::Degraded, FallbackReason::StateDegraded, "state_degraded"@),
    }
}

pub fn failure_outcome(f: DecisionFailure) -> (res: (DecisionStatus, FallbackReason, &'static str))
    ensures
        res.0 == spec_failure_outcome(f).0,
        res.1 == spec_failure_outcome(f).1,
        res.2@ == spec_failure_outcome(f).2,
{
    match f {
        DecisionFailure::DryRun => (DecisionStatus::Defer, FallbackReason::DryRun, "dry_run"),
        DecisionFailure::MissingApiKey => (DecisionStatus::Defer, FallbackReason::MissingApiKey, "missing_api_key"),
        DecisionFailure::Timeout => (DecisionStatus::Defer, FallbackReason::Timeout, "timeout"),
        DecisionFailure::Provider => (DecisionStatus::Defer, FallbackReason::ProviderError, "provider_error"),
        DecisionFailure::StateDegraded => (DecisionStatus::Degraded, FallbackReason::StateDegraded, "state_degraded"),
    }
}

/// A contract's identifiers must not be blank.
pub fn contract_ids_valid(question_id: &String, question_version: &String, policy_version: &String) -> (res: bool)
    ensures
        res == (!all_ws(question_id@) && !all_ws(question_version@) && !all_ws(policy_version@)),
{
    !is_blank(question_id) && !is_blank(question_version) && !is_blank(policy_version)
}

/// A state plan is degraded when it has no window, omits anything, or exceeds a budget.
pub fn state_is_degraded(
    window_count: usize,
    omitted_count: usize,
    state_bytes: usize,
    max_state_bytes: Option<usize>,
    candidate_count: usize,
    candidate_limit: Option<usize>,
) -> (res: bool)
    ensures
        res == (window_count == 0 || omitted_count > 0 || (max_state_bytes matches Some(l)
            && state_bytes > l) || (candidate_limit matches Some(l) && candidate_count > l)),
{
    let over_bytes = match max_state_bytes {
        Some(l) => state_bytes > l,
        None => false,
    };
    let over_candidates = match candidate_limit {
        Some(l) => candidate_count > l,
        None => false,
    };
    window_count == 0 || omitted_count > 0 || over_bytes || over_candidates
}


// ---------------------------------------------------------------------------------------
// Executing a contract
// ---------------------------------------------------------------------------------------

/// How an execution starts: refused for an invalid contract, ended by a failure before any
/// call (with its error code), or going on to the cache and the judge.
#[derive(Debug, Clone, Copy)]
pub enum ExecutionStart {
    InvalidContract,
    Fail(DecisionFailure, Option<&'static str>),
    Proceed,
}

/// The checks before a judge is asked, in order: the contract, the state, then the mode
/// (a dry run never calls; a replay without a recorded answer fails).
pub fn execution_start(contract_valid: bool, state_degraded: bool, mode: DecisionMode) -> (res: ExecutionStart)
    ensures
        !contract_valid ==> res is InvalidContract,
        contract_valid && state_degraded ==> (res matches ExecutionStart::Fail(f, Some(c))
            && f == DecisionFailure::StateDegraded && c@ == "state_degraded"@),
        contract_valid && !state_degraded && mode == DecisionMode::DryRun ==> (res matches ExecutionStart::Fail(f, None)
            && f == DecisionFailure::DryRun),
        contract_valid && !state_degraded && mode == DecisionMode::Replay ==> (res matches ExecutionStart::Fail(f, Some(c))
            && f == DecisionFailure::Provider && c@ == "replay_answer_missing"@),
        contract_valid && !state_degraded && mode == DecisionMode::Live ==> res is Proceed,
{
    if !contract_valid {
        ExecutionStart::InvalidContract
    } else if state_degraded {
        ExecutionStart::Fail(DecisionFailure::StateDegraded, Some("state_degraded"))
    } else {
        match mode {
            DecisionMode::DryRun => ExecutionStart::Fail(DecisionFailure::DryRun, None),
            DecisionMode::Replay => ExecutionStart::Fail(DecisionFailure::Provider, Some("replay_answer_missing")),
            DecisionMode::Live => ExecutionStart::Proceed,
        }
    }
}

/// The measurements an error reports: response time, calls, retries.
pub open spec fn error_metrics(e: &JevxError) -> Option<(u64, u32, u32)> {
    match e {
        JevxError::ProviderWithMetrics { calls, retries, response_ms, .. } => Some((*response_ms, *calls, *retries)),
        JevxError::TimeoutWithMetrics { calls, retries, response_ms } => Some((*response_ms, *calls, *retries)),
        _ => None,
    }
}

pub open spec fn spec_judge_error_failure(e: &JevxError) -> (DecisionFailure, Seq<char>) {
    match e {
        JevxError::MissingApiKey => (DecisionFailure::MissingApiKey, "missing_api_key"@),
        JevxError::Timeout | JevxError::TimeoutWithMetrics { .. } => (DecisionFailure::Timeout, "timeout"@),
        JevxError::Provider(_) | JevxError::ProviderWithMetrics { .. } => (DecisionFailure::Provider, "provider_error"@),
        JevxError::InvalidInput(_) | JevxError::Json(_) | JevxError::Yaml(_) => (DecisionFailure::StateDegraded, "invalid_input"@),
        JevxError::Io(_) => (DecisionFailure::Provider, "io_error"@),
    }
}

/// How a failed judge call ends an execution: its failure kind, error code and the
/// measurements the error carries.
pub fn judge_error_failure(e: &JevxError) -> (res: (DecisionFailure, &'static str, Option<(u64, u32, u32)>))
    ensures
        res.0 == spec_judge_error_failure(e).0,
        res.1@ == spec_judge_error_failure(e).1,
        res.2 == error_metrics(e),
{
    match e {
        JevxError::MissingApiKey => (DecisionFailure::MissingApiKey, "missing_api_key", None),
        JevxError::Timeout => (DecisionFailure::Timeout, "timeout", None),
        JevxError::TimeoutWithMetrics { calls, retries, response_ms } => (DecisionFailure::Timeout, "timeout", Some((*response_ms, *calls, *retries))),
        JevxError::Provider(_) => (DecisionFailure::Provider, "provider_error", None),
        JevxError::ProviderWithMetrics { calls, retries, response_ms, .. } => (DecisionFailure::Provider, "provider_error", Some((*response_ms, *calls, *retries))),
        JevxError::InvalidInput(_) | JevxError::Json(_) | JevxError::Yaml(_) => (DecisionFailure::StateDegraded, "invalid_input", None),
        JevxError::Io(_) => (DecisionFailure::Provider, "io_error", None),
    }
}

/// An answered call counts as at least one call.
pub fn answered_calls(calls: u32) -> (res: u32)
    ensures
        res == if calls >= 1 { calls } else { 1 },
{
    if calls >= 1 { calls } else { 1 }
}

} // verus!
