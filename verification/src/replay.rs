//! Replaying a recorded decision: whether a receipt still describes the contract and state
//! it is replayed against, and what the replay gives.

use vstd::prelude::*;

use crate::decision::DecisionStatus;
use crate::text::{chars_eq, chars_of};

verus! {

pub const RECEIPT_SCHEMA_VERSION: u8 = 2;

pub const LEGACY_RECEIPT_SCHEMA_VERSION: u8 = 1;

/// What a replay compares: the contract's identifiers and the state plan's digest, sizes,
/// omissions, redactions and budgets.
#[derive(Debug, Clone, PartialEq, Eq)]
pub struct ReplayIdentity {
    pub contract_version: String,
    pub question_id: String,
    pub question_version: String,
    pub policy_version: String,
    pub state_digest: String,
    pub state_bytes: usize,
    pub candidate_count: usize,
    pub window_count: usize,
    pub omitted: Vec<String>,
    pub redaction_reasons: Vec<String>,
    pub max_state_bytes: Option<usize>,
    pub candidate_limit: Option<usize>,
}

pub open spec fn strings_view(v: Seq<String>) -> Seq<Seq<char>> {
    v.map_values(|s: String| s@)
}

/// A receipt matches when every identifier, the digest, the counts and the lists agree; a
/// receipt that recorded no state size (zero) or no budget matches any.
pub open spec fn spec_identity_matches(receipt: ReplayIdentity, current: ReplayIdentity) -> bool {
    &&& receipt.contract_version@ == current.contract_version@
    &&& receipt.question_id@ == current.question_id@
    &&& receipt.question_version@ == current.question_version@
    &&& receipt.policy_version@ == current.policy_version@
    &&& receipt.state_digest@ == current.state_digest@
    &&& (receipt.state_bytes == 0 || receipt.state_bytes == current.state_bytes)
    &&& receipt.candidate_count == current.candidate_count
    &&& receipt.window_count == current.window_count
    &&& strings_view(receipt.omitted@) == strings_view(current.omitted@)
    &&& strings_view(receipt.redaction_reasons@) == strings_view(current.redaction_reasons@)
    &&& (receipt.max_state_bytes is None || receipt.max_state_bytes == current.max_state_bytes)
    &&& (receipt.candidate_limit is None || receipt.candidate_limit == current.candidate_limit)
}

fn same_text(a: &String, b: &String) -> (res: bool)
    ensures
        res == (a@ == b@),
{
    let ac = chars_of(a.as_str());
    let bc = chars_of(b.as_str());
    chars_eq(&ac, &bc)
}

fn same_texts(a: &Vec<String>, b: &Vec<String>) -> (res: bool)
    ensures
        res == (strings_view(a@) == strings_view(b@)),
{
    if a.len() != b.len() {
        proof {
            assert(strings_view(a@).len() != strings_view(b@).len());
        }
        return false;
    }
    let mut i: usize = 0;
    while i < a.len()
        invariant
            i <= a.len(),
            a.len() == b.len(),
            forall|k: int| 0 <= k < i ==> (#[trigger] a@[k])@ == b@[k]@,
        decreases a.len() - i,
    {
        if !same_text(&a[i], &b[i]) {
            proof {
                assert(strings_view(a@)[i as int] != strings_view(b@)[i as int]);
            }
            return false;
        }
        i = i + 1;
    }
    proof {
        assert(strings_view(a@) =~= strings_view(b@));
    }
    true
}

/// Whether the receipt still describes the contract and state it is replayed against.
pub fn identity_matches(receipt: &ReplayIdentity, current: &ReplayIdentity) -> (res: bool)
    ensures
        res == spec_identity_matches(*receipt, *current),
{
    same_text(&receipt.contract_version, &current.contract_version)
        && same_text(&receipt.question_id, &current.question_id)
        && same_text(&receipt.question_version, &current.question_version)
        && same_text(&receipt.policy_version, &current.policy_version)
        && same_text(&receipt.state_digest, &current.state_digest)
        && (receipt.state_bytes == 0 || receipt.state_bytes == current.state_bytes)
        && receipt.candidate_count == current.candidate_count
        && receipt.window_count == current.window_count
        && same_texts(&receipt.omitted, &current.omitted)
        && same_texts(&receipt.redaction_reasons, &current.redaction_reasons)
        && (receipt.max_state_bytes.is_none() || receipt.max_state_bytes == current.max_state_bytes)
        && (receipt.candidate_limit.is_none() || receipt.candidate_limit == current.candidate_limit)
}

/// How a replay ends.
#[derive(Debug, Clone, Copy, PartialEq, Eq, Structural)]
pub enum ReplayOutcome {
    /// The receipt's schema is not one this version reads.
    UnsupportedSchema,
    /// The receipt does not describe this contract, state or answer: the replay fails
    /// with `replay_mismatch`.
    Mismatch,
    /// The recorded answer, evaluated again, gives the recorded result.
    Replayed,
    /// No answer was recorded; the recorded status and fallback stand.
    RecordedWithoutAnswer,
}

/// The replay's checks, in order: the schema; the identity; the answer's digest and the
/// replay id; then, with an answer, whether evaluating it again gives the recorded result
/// (`answer_replays`); without one, whether the recorded status is one that has no answer
/// (unknown, defer or degraded) with a fallback.
pub open spec fn spec_replay_outcome(
    schema_version: u8,
    identity_matches: bool,
    digests_match: bool,
    has_answer: bool,
    answer_replays: bool,
    status: DecisionStatus,
    has_fallback: bool,
) -> ReplayOutcome {
    if schema_version != LEGACY_RECEIPT_SCHEMA_VERSION && schema_version != RECEIPT_SCHEMA_VERSION {
        ReplayOutcome::UnsupportedSchema
    } else if !identity_matches || !digests_match {
        ReplayOutcome::Mismatch
    } else if has_answer {
        if answer_replays { ReplayOutcome::Replayed } else { ReplayOutcome::Mismatch }
    } else if (status == DecisionStatus::Unknown || status == DecisionStatus::Defer || status == DecisionStatus::Degraded)
        && has_fallback {
        ReplayOutcome::RecordedWithoutAnswer
    } else {
        ReplayOutcome::Mismatch
    }
}

pub fn replay_outcome(
    schema_version: u8,
    identity_matches: bool,
    digests_match: bool,
    has_answer: bool,
    answer_replays: bool,
    status: DecisionStatus,
    has_fallback: bool,
) -> (res: ReplayOutcome)
    ensures
        res == spec_replay_outcome(schema_version, identity_matches, digests_match, has_answer, answer_replays, status,
            has_fallback),
{
    if schema_version != LEGACY_RECEIPT_SCHEMA_VERSION && schema_version != RECEIPT_SCHEMA_VERSION {
        ReplayOutcome::UnsupportedSchema
    } else if !identity_matches || !digests_match {
        ReplayOutcome::Mismatch
    } else if has_answer {
        if answer_replays { ReplayOutcome::Replayed } else { ReplayOutcome::Mismatch }
    } else if (status == DecisionStatus::Unknown || status == DecisionStatus::Defer || status == DecisionStatus::Degraded)
        && has_fallback {
        ReplayOutcome::RecordedWithoutAnswer
    } else {
        ReplayOutcome::Mismatch
    }
}

/// A receipt always matches the contract and state it was recorded for.
pub proof fn lemma_identity_matches_itself(identity: ReplayIdentity)
    ensures
        spec_identity_matches(identity, identity),
{
}

} // verus!
