//! Hook observation records: what a hook answers, the token-usage measurements it
//! carries, the identifiers it may hold, and how records are validated and summarised.
//!
//! Records are read and written by the caller; here each record is seen through the facts
//! the analysis reads (`HookRecordFacts`).

use vstd::prelude::*;

use crate::error::JevxError;
use crate::evaluation::{decimal, decimal_chars};
use crate::text::{chars_of, concat3, contains_seq, contains_lit, eq_lit, string_from_chars, trim, trim_chars};
use crate::types::{CandidateDecision, SkillRecord};
use crate::digest::{sha256_hex, sha256_of};
use crate::text::{append_chars, join, join_chars, vviews};
use crate::ranking::{chars_less, chars_lt};
use crate::text::chars_eq;
use crate::cost::CostStatus;
use crate::stats::{ascending, percentile, percentile_rank};

verus! {

pub const HOOK_SCHEMA_VERSION: u8 = 3;

pub const LEGACY_HOOK_SCHEMA_VERSION: u8 = 1;

pub const PREVIOUS_HOOK_SCHEMA_VERSION: u8 = 2;

/// What a hook answers Codex: always continue, without output of its own.
#[derive(Debug, Clone, Copy, PartialEq, Eq, Structural)]
pub struct HookResponse {
    pub continue_running: bool,
    pub suppress_output: bool,
}

impl HookResponse {
    /// A hook observes; it never stops Codex or adds output.
    pub fn observe_only() -> (res: HookResponse)
        ensures
            res.continue_running,
            res.suppress_output,
    {
        HookResponse { continue_running: true, suppress_output: true }
    }
}

#[derive(Debug, Clone, Copy, PartialEq, Eq, Structural)]
pub enum MeasurementStatus {
    Measured,
    Estimated,
    Unavailable,
    Degraded,
}

/// Token counts reported by Codex around a compaction.
#[derive(Debug, Clone, Copy, PartialEq, Eq, Structural)]
pub struct TokenUsageSnapshot {
    pub input_tokens: u64,
    pub cached_input_tokens: u64,
    pub cache_write_input_tokens: u64,
    pub output_tokens: u64,
    pub reasoning_output_tokens: u64,
    pub total_tokens: u64,
}

impl TokenUsageSnapshot {
    /// Cached input is part of the input, so it cannot exceed it.
    pub fn validate(&self, context: &str) -> (res: Result<(), JevxError>)
        ensures
            res is Ok <==> self.cached_input_tokens <= self.input_tokens,
            res matches Err(e) ==> e matches JevxError::InvalidInput(m) && m@ == context@
                + ": cachedInputTokens must not exceed inputTokens"@,
    {
        if self.cached_input_tokens > self.input_tokens {
            let m = concat3(context, ": cachedInputTokens must not exceed inputTokens", "");
            proof {
                reveal_strlit("");
                assert(m@ =~= context@ + ": cachedInputTokens must not exceed inputTokens"@);
            }
            return Err(JevxError::InvalidInput(m));
        }
        Ok(())
    }

    pub fn uncached_input_tokens(&self) -> (res: u64)
        ensures
            res == if self.input_tokens >= self.cached_input_tokens {
                self.input_tokens - self.cached_input_tokens
            } else {
                0
            },
    {
        if self.input_tokens >= self.cached_input_tokens {
            self.input_tokens - self.cached_input_tokens
        } else {
            0
        }
    }

    /// Uncached input plus output, saturating at `u64::MAX`.
    pub fn estimated_billable_tokens(&self) -> (res: u64)
        ensures
            res == if self.uncached_input_tokens_spec() + self.output_tokens <= u64::MAX {
                (self.uncached_input_tokens_spec() + self.output_tokens) as u64
            } else {
                u64::MAX
            },
    {
        let u = self.uncached_input_tokens();
        u.saturating_add(self.output_tokens)
    }

    pub open spec fn uncached_input_tokens_spec(&self) -> u64 {
        if self.input_tokens >= self.cached_input_tokens {
            (self.input_tokens - self.cached_input_tokens) as u64
        } else {
            0
        }
    }

    /// A snapshot without a total is no measurement.
    pub fn has_total_tokens(&self) -> (res: bool)
        ensures
            res == (self.total_tokens > 0),
    {
        self.total_tokens > 0
    }
}

/// The counts a saving is measured from. (Its rate, a ratio, is computed by the caller.)
#[derive(Debug, Clone, Copy, PartialEq, Eq, Structural)]
pub struct TokenSavingsCounts {
    pub before_tokens: Option<u64>,
    pub after_tokens: Option<u64>,
    pub saved_tokens: Option<u64>,
    pub status: MeasurementStatus,
}

pub open spec fn measured_total(s: Option<TokenUsageSnapshot>) -> Option<u64> {
    match s {
        Some(u) => if u.total_tokens > 0 { Some(u.total_tokens) } else { None },
        None => None,
    }
}

/// The counts `savings_from_snapshots` gives.
pub open spec fn spec_savings(before: Option<TokenUsageSnapshot>, after: Option<TokenUsageSnapshot>) -> TokenSavingsCounts {
    let b = measured_total(before);
    let a = measured_total(after);
    match (b, a) {
        (Some(bv), Some(av)) => if av <= bv {
            TokenSavingsCounts { before_tokens: b, after_tokens: a, saved_tokens: Some((bv - av) as u64), status: MeasurementStatus::Measured }
        } else {
            TokenSavingsCounts { before_tokens: b, after_tokens: a, saved_tokens: None, status: MeasurementStatus::Degraded }
        },
        _ => TokenSavingsCounts { before_tokens: b, after_tokens: a, saved_tokens: None, status: MeasurementStatus::Unavailable },
    }
}

/// A saving is measured when both totals are known and the total did not grow; a growth
/// is degraded; a missing total leaves it unavailable.
pub fn savings_from_snapshots(before: Option<TokenUsageSnapshot>, after: Option<TokenUsageSnapshot>) -> (res: TokenSavingsCounts)
    ensures
        res == spec_savings(before, after),
        res.before_tokens == measured_total(before),
        res.after_tokens == measured_total(after),
        match (measured_total(before), measured_total(after)) {
            (Some(b), Some(a)) => if a <= b {
                res.saved_tokens == Some((b - a) as u64) && res.status == MeasurementStatus::Measured
            } else {
                res.saved_tokens is None && res.status == MeasurementStatus::Degraded
            },
            _ => res.saved_tokens is None && res.status == MeasurementStatus::Unavailable,
        },
{
    let b = match before {
        Some(u) => if u.has_total_tokens() { Some(u.total_tokens) } else { None },
        None => None,
    };
    let a = match after {
        Some(u) => if u.has_total_tokens() { Some(u.total_tokens) } else { None },
        None => None,
    };
    let (saved, status) = match (b, a) {
        (Some(bv), Some(av)) => if av <= bv {
            (Some(bv - av), MeasurementStatus::Measured)
        } else {
            (None, MeasurementStatus::Degraded)
        },
        _ => (None, MeasurementStatus::Unavailable),
    };
    TokenSavingsCounts { before_tokens: b, after_tokens: a, saved_tokens: saved, status }
}

// ---------------------------------------------------------------------------------------
// Identifiers
// ---------------------------------------------------------------------------------------

pub open spec fn is_ident_char(c: char, allow_colon: bool) -> bool {
    ('a' <= c && c <= 'z') || ('A' <= c && c <= 'Z') || ('0' <= c && c <= '9') || c == '_' || c == '-'
        || c == '/' || c == '.' || (allow_colon && c == ':')
}

/// An identifier a record may keep: non-empty, at most `max_chars` characters, made of
/// ASCII letters, digits and `_-/.` (and `:` for skill names).
pub open spec fn spec_safe_identifier(value: Seq<char>, max_chars: usize, allow_colon: bool) -> bool {
    &&& value.len() > 0
    &&& value.len() <= max_chars
    &&& forall|i: int| 0 <= i < value.len() ==> is_ident_char(#[trigger] value[i], allow_colon)
}

fn ident_ok(c: &[char], max_chars: usize, allow_colon: bool) -> (res: bool)
    ensures
        res == spec_safe_identifier(c@, max_chars, allow_colon),
{
    if c.len() == 0 || c.len() > max_chars {
        return false;
    }
    let mut i: usize = 0;
    while i < c.len()
        invariant
            i <= c.len(),
            forall|k: int| 0 <= k < i ==> is_ident_char(#[trigger] c@[k], allow_colon),
        decreases c.len() - i,
    {
        let ch = c[i];
        if !(('a' <= ch && ch <= 'z') || ('A' <= ch && ch <= 'Z') || ('0' <= ch && ch <= '9') || ch == '_'
            || ch == '-' || ch == '/' || ch == '.' || (allow_colon && ch == ':')) {
            return false;
        }
        i = i + 1;
    }
    true
}

pub fn safe_identifier(value: &str, max_chars: usize) -> (res: bool)
    ensures
        res == spec_safe_identifier(value@, max_chars, false),
{
    let c = chars_of(value);
    ident_ok(&c, max_chars, false)
}

pub fn safe_skill_identifier(value: &str, max_chars: usize) -> (res: bool)
    ensures
        res == spec_safe_identifier(value@, max_chars, true),
{
    let c = chars_of(value);
    ident_ok(&c, max_chars, true)
}

pub open spec fn spec_sanitized(value: Option<Seq<char>>, max_chars: usize, allow_colon: bool) -> Option<Seq<char>> {
    match value {
        Some(v) => if spec_safe_identifier(trim(v), max_chars, allow_colon) { Some(trim(v)) } else { None },
        None => None,
    }
}

pub open spec fn opt_str(v: Option<&str>) -> Option<Seq<char>> {
    match v {
        Some(s) => Some(s@),
        None => None,
    }
}

pub open spec fn opt_string(v: Option<String>) -> Option<Seq<char>> {
    match v {
        Some(s) => Some(s@),
        None => None,
    }
}

/// The trimmed identifier when it is safe; otherwise nothing.
pub fn sanitized_identifier(value: Option<&str>, max_chars: usize) -> (res: Option<String>)
    ensures
        opt_string(res) == spec_sanitized(opt_str(value), max_chars, false),
{
    let v = match value {
        Some(v) => v,
        None => return None,
    };
    let c = chars_of(v);
    let t = trim_chars(&c);
    if ident_ok(&t, max_chars, false) {
        Some(string_from_chars(&t))
    } else {
        None
    }
}

pub fn sanitized_skill_identifier(value: Option<&str>, max_chars: usize) -> (res: Option<String>)
    ensures
        opt_string(res) == spec_sanitized(opt_str(value), max_chars, true),
{
    let v = match value {
        Some(v) => v,
        None => return None,
    };
    let c = chars_of(v);
    let t = trim_chars(&c);
    if ident_ok(&t, max_chars, true) {
        Some(string_from_chars(&t))
    } else {
        None
    }
}

pub open spec fn spec_decision_label(d: CandidateDecision) -> Seq<char> {
    match d {
        CandidateDecision::Selected => "selected"@,
        CandidateDecision::Explicit => "explicit"@,
        CandidateDecision::NoMatch => "none"@,
        CandidateDecision::NoCandidates => "no_candidates"@,
        CandidateDecision::Error => "error"@,
    }
}

/// The label a suggestion decision is counted under.
pub fn decision_label(d: CandidateDecision) -> (res: &'static str)
    ensures
        res@ == spec_decision_label(d),
{
    match d {
        CandidateDecision::Selected => "selected",
        CandidateDecision::Explicit => "explicit",
        CandidateDecision::NoMatch => "none",
        CandidateDecision::NoCandidates => "no_candidates",
        CandidateDecision::Error => "error",
    }
}

/// A required fact survives a compaction when it appears verbatim, or, for `key=value`,
/// as `key: value` or `key:value`.
pub open spec fn spec_fact_is_retained(response: Seq<char>, fact: Seq<char>) -> bool {
    contains_seq(response, fact) || match crate::discovery::first_occurrence(fact, seq!['='], 0) {
        Some(p) => {
            let key = fact.take(p);
            let value = fact.skip(p + 1);
            contains_seq(response, key + ": "@ + value) || contains_seq(response, key + ":"@ + value)
        },
        None => false,
    }
}

pub fn fact_is_retained(response: &str, fact: &str) -> (res: bool)
    ensures
        res == spec_fact_is_retained(response@, fact@),
{
    let r = chars_of(response);
    let f = chars_of(fact);
    if crate::text::contains_chars(&r, &f) {
        return true;
    }
    let eq: [char; 1] = ['='];
    proof {
        assert(eq@ =~= seq!['=']);
    }
    let p = match crate::discovery::find_chars(&f, &eq) {
        Some(p) => p,
        None => return false,
    };
    assert(p + eq@.len() <= f@.len());
    assert(eq@.len() == 1);
    assert(p + 1 <= f.len());
    let key = crate::text::slice_vec(&f, 0, p);
    let value = crate::text::slice_vec(&f, p + 1, f.len());
    let mut spaced = key.clone();
    let sep1 = chars_of(": ");
    crate::text::append_chars(&mut spaced, &sep1);
    crate::text::append_chars(&mut spaced, &value);
    let mut tight = key.clone();
    let sep2 = chars_of(":");
    crate::text::append_chars(&mut tight, &sep2);
    crate::text::append_chars(&mut tight, &value);
    proof {
        assert(key@ =~= fact@.take(p as int));
        assert(value@ =~= fact@.skip(p + 1));
    }
    crate::text::contains_chars(&r, &spaced) || crate::text::contains_chars(&r, &tight)
}


// ---------------------------------------------------------------------------------------
// Records
// ---------------------------------------------------------------------------------------

/// What the analysis reads of a hook record. `cost_metadata_valid` is whether the record's
/// Codex usage and post-compaction cost pass their own checks (made by the caller, as they
/// involve amounts).
#[derive(Debug, Clone)]
pub struct HookRecordFacts {
    pub schema_version: u8,
    pub mode: String,
    pub hook_event_name: String,
    pub trigger: Option<String>,
    pub source: Option<String>,
    pub selected_skill: Option<String>,
    pub session_id_sha256: Option<String>,
    pub turn_id_sha256: Option<String>,
    pub model_sha256: Option<String>,
    pub correlation_id_sha256: Option<String>,
    pub dedupe_key_sha256: Option<String>,
    pub cost_metadata_valid: bool,
    pub pre_compaction_usage: Option<TokenUsageSnapshot>,
    pub compaction_usage: Option<TokenUsageSnapshot>,
    pub post_compaction_usage: Option<TokenUsageSnapshot>,
    pub savings: Option<TokenSavingsCounts>,
    pub savings_source: Option<String>,
    pub decision: Option<CandidateDecision>,
    pub has_error: bool,
    pub elapsed_ms: u64,
    pub dedupe_hit: bool,
    pub usage_measured: bool,
    /// The status of the record's Jev, Codex and total costs.
    pub jev_cost_status: CostStatus,
    pub codex_cost_status: CostStatus,
    pub total_cost_status: CostStatus,
}

pub open spec fn is_known_event(name: Seq<char>) -> bool {
    name == "SessionStart"@ || name == "PreCompact"@ || name == "PostCompact"@ || name == "UserPromptSubmit"@
}

pub open spec fn opt_ident(v: Option<String>, max_chars: usize, allow_colon: bool) -> bool {
    match v {
        Some(s) => spec_safe_identifier(s@, max_chars, allow_colon),
        None => true,
    }
}

pub open spec fn usage_ok(u: Option<TokenUsageSnapshot>) -> bool {
    match u {
        Some(s) => s.cached_input_tokens <= s.input_tokens,
        None => true,
    }
}

/// Every identifier of a record is safe and its measurements are consistent.
pub open spec fn record_fields_safe(r: HookRecordFacts) -> bool {
    &&& spec_safe_identifier(r.mode@, 32, false)
    &&& opt_ident(r.trigger, 32, false)
    &&& opt_ident(r.source, 64, false)
    &&& opt_ident(r.selected_skill, 128, true)
    &&& opt_ident(r.session_id_sha256, 128, false)
    &&& opt_ident(r.turn_id_sha256, 128, false)
    &&& opt_ident(r.model_sha256, 128, false)
    &&& opt_ident(r.correlation_id_sha256, 128, false)
    &&& opt_ident(r.dedupe_key_sha256, 128, false)
    &&& r.cost_metadata_valid
    &&& usage_ok(r.pre_compaction_usage)
    &&& usage_ok(r.compaction_usage)
    &&& usage_ok(r.post_compaction_usage)
    &&& opt_ident(r.savings_source, 32, false)
}

/// Why a record is refused, if it is: the schema first, then the event, then the fields.
pub open spec fn record_problem(r: HookRecordFacts) -> Option<Seq<char>> {
    if r.schema_version != HOOK_SCHEMA_VERSION {
        Some(": unsupported hook record schema"@)
    } else if !is_known_event(r.hook_event_name@) {
        Some(": unsupported hook event"@)
    } else if !record_fields_safe(r) {
        Some(": hook record contains an unsafe identifier"@)
    } else {
        None
    }
}

fn opt_ident_exec(v: &Option<String>, max_chars: usize, allow_colon: bool) -> (res: bool)
    ensures
        res == opt_ident(*v, max_chars, allow_colon),
{
    match v {
        Some(s) => {
            let c = chars_of(s.as_str());
            ident_ok(&c, max_chars, allow_colon)
        },
        None => true,
    }
}

fn usage_ok_exec(u: &Option<TokenUsageSnapshot>) -> (res: bool)
    ensures
        res == usage_ok(*u),
{
    match u {
        Some(s) => s.cached_input_tokens <= s.input_tokens,
        None => true,
    }
}

fn is_known_event_exec(name: &String) -> (res: bool)
    ensures
        res == is_known_event(name@),
{
    let n = chars_of(name.as_str());
    eq_lit(&n, "SessionStart") || eq_lit(&n, "PreCompact") || eq_lit(&n, "PostCompact") || eq_lit(&n, "UserPromptSubmit")
}

/// Checks a record before it is counted; the error names the context.
pub fn validate_hook_record(r: &HookRecordFacts, context: &str) -> (res: Result<(), JevxError>)
    ensures
        res is Ok <==> record_problem(*r) is None,
        res matches Err(e) ==> e matches JevxError::InvalidInput(m) && m@ == context@ + record_problem(*r)->0,
{
    let problem: &str = if r.schema_version != HOOK_SCHEMA_VERSION {
        ": unsupported hook record schema"
    } else if !is_known_event_exec(&r.hook_event_name) {
        ": unsupported hook event"
    } else if !(opt_ident_exec(&Some(r.mode.clone()), 32, false) && opt_ident_exec(&r.trigger, 32, false)
        && opt_ident_exec(&r.source, 64, false) && opt_ident_exec(&r.selected_skill, 128, true)
        && opt_ident_exec(&r.session_id_sha256, 128, false) && opt_ident_exec(&r.turn_id_sha256, 128, false)
        && opt_ident_exec(&r.model_sha256, 128, false) && opt_ident_exec(&r.correlation_id_sha256, 128, false)
        && opt_ident_exec(&r.dedupe_key_sha256, 128, false) && r.cost_metadata_valid
        && usage_ok_exec(&r.pre_compaction_usage) && usage_ok_exec(&r.compaction_usage)
        && usage_ok_exec(&r.post_compaction_usage) && opt_ident_exec(&r.savings_source, 32, false)) {
        ": hook record contains an unsafe identifier"
    } else {
        return Ok(());
    };
    let m = concat3(context, problem, "");
    proof {
        reveal_strlit("");
        assert(m@ =~= context@ + problem@);
    }
    Err(JevxError::InvalidInput(m))
}

/// Records written by earlier schema versions are read as the current one, with their
/// free-text identifiers kept only when safe.
pub fn normalize_loaded_hook_record(r: &mut HookRecordFacts)
    ensures
        final(r).schema_version == (if old(r).schema_version == LEGACY_HOOK_SCHEMA_VERSION
            || old(r).schema_version == PREVIOUS_HOOK_SCHEMA_VERSION {
            HOOK_SCHEMA_VERSION
        } else {
            old(r).schema_version
        }),
        final(r).schema_version == HOOK_SCHEMA_VERSION ==> {
            &&& opt_string(final(r).trigger) == spec_sanitized(opt_string(old(r).trigger), 32, false)
            &&& opt_string(final(r).source) == spec_sanitized(opt_string(old(r).source), 64, false)
            &&& opt_string(final(r).selected_skill) == spec_sanitized(opt_string(old(r).selected_skill), 128, true)
        },
        final(r).schema_version != HOOK_SCHEMA_VERSION ==> (final(r).trigger == old(r).trigger
            && final(r).source == old(r).source && final(r).selected_skill == old(r).selected_skill),
        final(r).mode == old(r).mode,
        final(r).hook_event_name == old(r).hook_event_name,
{
    if r.schema_version == LEGACY_HOOK_SCHEMA_VERSION || r.schema_version == PREVIOUS_HOOK_SCHEMA_VERSION {
        r.schema_version = HOOK_SCHEMA_VERSION;
    }
    if r.schema_version == HOOK_SCHEMA_VERSION {
        let t = match &r.trigger {
            Some(v) => sanitized_identifier(Some(v.as_str()), 32),
            None => None,
        };
        let s = match &r.source {
            Some(v) => sanitized_identifier(Some(v.as_str()), 64),
            None => None,
        };
        let k = match &r.selected_skill {
            Some(v) => sanitized_skill_identifier(Some(v.as_str()), 128),
            None => None,
        };
        r.trigger = t;
        r.source = s;
        r.selected_skill = k;
    }
}


// ---------------------------------------------------------------------------------------
// Orders
// ---------------------------------------------------------------------------------------

/// Three-way comparison of texts in `String` order.
pub open spec fn seq_compare(a: Seq<char>, b: Seq<char>) -> int {
    if a == b {
        0
    } else if chars_lt(a, b) {
        -1
    } else {
        1
    }
}

/// `Option<String>` order: nothing first.
pub open spec fn opt_compare(a: Option<Seq<char>>, b: Option<Seq<char>>) -> int {
    match (a, b) {
        (None, None) => 0,
        (None, Some(_)) => -1,
        (Some(_), None) => 1,
        (Some(x), Some(y)) => seq_compare(x, y),
    }
}

pub open spec fn idx_compare(a: Option<int>, b: Option<int>) -> int {
    match (a, b) {
        (None, None) => 0,
        (None, Some(_)) => -1,
        (Some(_), None) => 1,
        (Some(x), Some(y)) => if x == y { 0 } else if x < y { -1 } else { 1 },
    }
}

fn chars_compare(a: &[char], b: &[char]) -> (res: i8)
    ensures
        res == seq_compare(a@, b@),
{
    if chars_eq(a, b) {
        0
    } else if chars_less(a, b) {
        -1
    } else {
        1
    }
}

fn str_compare(a: &String, b: &String) -> (res: i8)
    ensures
        res == seq_compare(a@, b@),
{
    let ac = chars_of(a.as_str());
    let bc = chars_of(b.as_str());
    chars_compare(&ac, &bc)
}

fn opt_str_compare(a: &Option<String>, b: &Option<String>) -> (res: i8)
    ensures
        res == opt_compare(opt_string(*a), opt_string(*b)),
{
    match (a, b) {
        (None, None) => 0,
        (None, Some(_)) => -1,
        (Some(_), None) => 1,
        (Some(x), Some(y)) => str_compare(x, y),
    }
}

/// Where a stable insertion puts `x` into `l` under `before`: ahead of the first entry
/// that `x` comes before.
pub open spec fn ins_pos(before: spec_fn(int, int) -> bool, l: Seq<usize>, x: usize) -> int
    decreases l.len(),
{
    if l.len() == 0 {
        0
    } else if before(x as int, l[0] as int) {
        0
    } else {
        1 + ins_pos(before, l.drop_first(), x)
    }
}

/// `items` in the order stable insertion under `before` gives.
pub open spec fn ins_sorted(before: spec_fn(int, int) -> bool, items: Seq<usize>) -> Seq<usize>
    decreases items.len(),
{
    if items.len() == 0 {
        seq![]
    } else {
        let l = ins_sorted(before, items.drop_last());
        l.insert(ins_pos(before, l, items.last()), items.last())
    }
}

proof fn lemma_ins_pos_bounds(before: spec_fn(int, int) -> bool, l: Seq<usize>, x: usize)
    ensures
        0 <= ins_pos(before, l, x) <= l.len(),
    decreases l.len(),
{
    if l.len() > 0 {
        lemma_ins_pos_bounds(before, l.drop_first(), x);
    }
}

proof fn lemma_ins_pos_skip(before: spec_fn(int, int) -> bool, l: Seq<usize>, x: usize, j: int)
    requires
        0 <= j <= l.len(),
        forall|k: int| 0 <= k < j ==> !before(x as int, #[trigger] l[k] as int),
    ensures
        ins_pos(before, l, x) == j + ins_pos(before, l.skip(j), x),
    decreases j,
{
    if j > 0 {
        assert(!before(x as int, l[0] as int));
        assert forall|k: int| 0 <= k < j - 1 implies !before(x as int, #[trigger] l.drop_first()[k] as int) by {
            assert(l.drop_first()[k] == l[k + 1]);
        }
        lemma_ins_pos_skip(before, l.drop_first(), x, j - 1);
        assert(l.drop_first().skip(j - 1) =~= l.skip(j));
    } else {
        assert(l.skip(0) =~= l);
    }
}

proof fn lemma_ins_sorted_members(before: spec_fn(int, int) -> bool, items: Seq<usize>)
    ensures
        ins_sorted(before, items).len() == items.len(),
        forall|k: int| 0 <= k < items.len() ==> items.contains(#[trigger] ins_sorted(before, items)[k]),
    decreases items.len(),
{
    if items.len() > 0 {
        let d = items.drop_last();
        lemma_ins_sorted_members(before, d);
        let l = ins_sorted(before, d);
        lemma_ins_pos_bounds(before, l, items.last());
        let p = ins_pos(before, l, items.last());
        assert forall|k: int| 0 <= k < items.len() implies items.contains(#[trigger] ins_sorted(before, items)[k]) by {
            let v = ins_sorted(before, items)[k];
            if k < p {
                assert(v == l[k]);
                assert(d.contains(v));
                let m = choose|m: int| 0 <= m < d.len() && d[m] == v;
                assert(items[m] == v);
            } else if k == p {
                assert(v == items.last());
                assert(items[items.len() - 1] == v);
            } else {
                assert(v == l[k - 1]);
                assert(d.contains(v));
                let m = choose|m: int| 0 <= m < d.len() && d[m] == v;
                assert(items[m] == v);
            }
        }
    }
}

// ---------------------------------------------------------------------------------------
// Correlation of records
// ---------------------------------------------------------------------------------------

pub open spec fn has_identity(r: HookRecordFacts) -> bool {
    r.correlation_id_sha256 is Some || r.session_id_sha256 is Some || r.turn_id_sha256 is Some
}

/// A record without any identity is a group of its own, keyed by its position.
pub open spec fn unkeyed_index(rs: Seq<HookRecordFacts>, i: int) -> Option<int> {
    if has_identity(rs[i]) { None } else { Some(i) }
}

/// The order of groups with equal counts: event, trigger, source, then correlation,
/// session, turn and model digests, then position for records without identity.
pub open spec fn key_compare(rs: Seq<HookRecordFacts>, a: int, b: int) -> int {
    let x = rs[a];
    let y = rs[b];
    let c1 = seq_compare(x.hook_event_name@, y.hook_event_name@);
    let c2 = opt_compare(opt_string(x.trigger), opt_string(y.trigger));
    let c3 = opt_compare(opt_string(x.source), opt_string(y.source));
    let c4 = opt_compare(opt_string(x.correlation_id_sha256), opt_string(y.correlation_id_sha256));
    let c5 = opt_compare(opt_string(x.session_id_sha256), opt_string(y.session_id_sha256));
    let c6 = opt_compare(opt_string(x.turn_id_sha256), opt_string(y.turn_id_sha256));
    let c7 = opt_compare(opt_string(x.model_sha256), opt_string(y.model_sha256));
    let c8 = idx_compare(unkeyed_index(rs, a), unkeyed_index(rs, b));
    if c1 != 0 { c1 } else if c2 != 0 { c2 } else if c3 != 0 { c3 } else if c4 != 0 { c4 }
    else if c5 != 0 { c5 } else if c6 != 0 { c6 } else if c7 != 0 { c7 } else { c8 }
}

/// Two records belong to the same group.
pub open spec fn same_group(rs: Seq<HookRecordFacts>, a: int, b: int) -> bool {
    key_compare(rs, a, b) == 0
}

/// How many of the first `n` records belong to the group of record `i`.
pub open spec fn group_count(rs: Seq<HookRecordFacts>, i: int, n: nat) -> nat
    decreases n,
{
    if n == 0 {
        0
    } else {
        group_count(rs, i, (n - 1) as nat) + if same_group(rs, n - 1, i) { 1nat } else { 0nat }
    }
}

/// The first record of each group, in the order the groups first appear.
pub open spec fn group_heads(rs: Seq<HookRecordFacts>, n: nat) -> Seq<usize>
    decreases n,
{
    if n == 0 {
        seq![]
    } else {
        let h = group_heads(rs, (n - 1) as nat);
        if (forall|j: int| #![trigger rs[j]] 0 <= j < n - 1 ==> !same_group(rs, j, n - 1)) {
            h.push((n - 1) as usize)
        } else {
            h
        }
    }
}

/// Groups with more records come first; equal counts go by the key order.
pub open spec fn group_before(rs: Seq<HookRecordFacts>) -> spec_fn(int, int) -> bool {
    |a: int, b: int| {
        let ca = group_count(rs, a, rs.len());
        let cb = group_count(rs, b, rs.len());
        ca > cb || (ca == cb && key_compare(rs, a, b) < 0)
    }
}

/// The groups' heads in report order.
pub open spec fn ordered_groups(rs: Seq<HookRecordFacts>) -> Seq<usize> {
    ins_sorted(group_before(rs), group_heads(rs, rs.len()))
}

/// One group of records that share their identity and event.
#[derive(Debug, Clone)]
pub struct HookCorrelationGroup {
    pub correlation_id_sha256: Option<String>,
    pub session_id_sha256: Option<String>,
    pub turn_id_sha256: Option<String>,
    pub model_sha256: Option<String>,
    pub hook_event_name: String,
    pub trigger: Option<String>,
    pub source: Option<String>,
    pub count: usize,
}

/// The group a record heads, with its count.
pub open spec fn is_group_of(g: HookCorrelationGroup, r: HookRecordFacts, count: nat) -> bool {
    &&& opt_string(g.correlation_id_sha256) == opt_string(r.correlation_id_sha256)
    &&& opt_string(g.session_id_sha256) == opt_string(r.session_id_sha256)
    &&& opt_string(g.turn_id_sha256) == opt_string(r.turn_id_sha256)
    &&& opt_string(g.model_sha256) == opt_string(r.model_sha256)
    &&& g.hook_event_name@ == r.hook_event_name@
    &&& opt_string(g.trigger) == opt_string(r.trigger)
    &&& opt_string(g.source) == opt_string(r.source)
    &&& g.count == count
}

/// How records group. `event_counts` holds each event name once, in ascending order, with
/// its number of records.
#[derive(Debug, Clone)]
pub struct HookCorrelationReport {
    pub schema_version: u8,
    pub mode: String,
    pub record_count: usize,
    pub duplicate_group_count: usize,
    pub duplicate_record_count: usize,
    pub event_counts: Vec<(String, usize)>,
    pub groups: Vec<HookCorrelationGroup>,
}

fn key_compare_exec(rs: &Vec<HookRecordFacts>, a: usize, b: usize) -> (res: i8)
    requires
        a < rs.len(),
        b < rs.len(),
    ensures
        res == key_compare(rs@, a as int, b as int),
{
    let x = &rs[a];
    let y = &rs[b];
    let c1 = str_compare(&x.hook_event_name, &y.hook_event_name);
    if c1 != 0 {
        return c1;
    }
    let c2 = opt_str_compare(&x.trigger, &y.trigger);
    if c2 != 0 {
        return c2;
    }
    let c3 = opt_str_compare(&x.source, &y.source);
    if c3 != 0 {
        return c3;
    }
    let c4 = opt_str_compare(&x.correlation_id_sha256, &y.correlation_id_sha256);
    if c4 != 0 {
        return c4;
    }
    let c5 = opt_str_compare(&x.session_id_sha256, &y.session_id_sha256);
    if c5 != 0 {
        return c5;
    }
    let c6 = opt_str_compare(&x.turn_id_sha256, &y.turn_id_sha256);
    if c6 != 0 {
        return c6;
    }
    let c7 = opt_str_compare(&x.model_sha256, &y.model_sha256);
    if c7 != 0 {
        return c7;
    }
    let xi = x.correlation_id_sha256.is_some() || x.session_id_sha256.is_some() || x.turn_id_sha256.is_some();
    let yi = y.correlation_id_sha256.is_some() || y.session_id_sha256.is_some() || y.turn_id_sha256.is_some();
    if xi && yi {
        0
    } else if xi {
        -1
    } else if yi {
        1
    } else if a == b {
        0
    } else if a < b {
        -1
    } else {
        1
    }
}


fn group_count_exec(rs: &Vec<HookRecordFacts>, i: usize) -> (res: usize)
    requires
        i < rs.len(),
    ensures
        res == group_count(rs@, i as int, rs@.len()),
{
    let mut c: usize = 0;
    let mut j: usize = 0;
    while j < rs.len()
        invariant
            i < rs.len(),
            j <= rs.len(),
            c <= j,
            c == group_count(rs@, i as int, j as nat),
        decreases rs.len() - j,
    {
        if key_compare_exec(rs, j, i) == 0 {
            c = c + 1;
        }
        j = j + 1;
    }
    c
}

fn group_heads_exec(rs: &Vec<HookRecordFacts>) -> (res: Vec<usize>)
    ensures
        res@ == group_heads(rs@, rs@.len()),
        forall|k: int| 0 <= k < res@.len() ==> (#[trigger] res@[k]) < rs@.len(),
{
    let mut heads: Vec<usize> = Vec::new();
    let mut i: usize = 0;
    while i < rs.len()
        invariant
            i <= rs.len(),
            heads@ == group_heads(rs@, i as nat),
            forall|k: int| 0 <= k < heads@.len() ==> (#[trigger] heads@[k]) < i,
        decreases rs.len() - i,
    {
        let mut j: usize = 0;
        let mut fresh = true;
        while j < i
            invariant
                i < rs.len(),
                j <= i,
                fresh == (forall|m: int| #![trigger rs@[m]] 0 <= m < j ==> !same_group(rs@, m, i as int)),
            decreases i - j,
        {
            if key_compare_exec(rs, j, i) == 0 {
                fresh = false;
            }
            j = j + 1;
        }
        if fresh {
            heads.push(i);
        }
        i = i + 1;
    }
    heads
}

fn order_groups(rs: &Vec<HookRecordFacts>, heads: &Vec<usize>, counts: &Vec<usize>) -> (res: Vec<usize>)
    requires
        counts@.len() == rs@.len(),
        forall|v: int| 0 <= v < rs@.len() ==> #[trigger] counts@[v] == group_count(rs@, v, rs@.len()),
        forall|k: int| 0 <= k < heads@.len() ==> (#[trigger] heads@[k]) < rs@.len(),
    ensures
        res@ == ins_sorted(group_before(rs@), heads@),
{
    let ghost before = group_before(rs@);
    let mut order: Vec<usize> = Vec::new();
    let mut i: usize = 0;
    while i < heads.len()
        invariant
            counts@.len() == rs@.len(),
            forall|v: int| 0 <= v < rs@.len() ==> #[trigger] counts@[v] == group_count(rs@, v, rs@.len()),
            forall|k: int| 0 <= k < heads@.len() ==> (#[trigger] heads@[k]) < rs@.len(),
            before == group_before(rs@),
            i <= heads.len(),
            order@ == ins_sorted(before, heads@.take(i as int)),
            forall|k: int| 0 <= k < order@.len() ==> (#[trigger] order@[k]) < rs@.len(),
        decreases heads.len() - i,
    {
        proof {
            assert(heads@.take(i + 1).drop_last() =~= heads@.take(i as int));
            lemma_ins_sorted_members(before, heads@.take(i as int));
        }
        let x = heads[i];
        let mut j: usize = 0;
        while j < order.len() && !(counts[x] > counts[order[j]] || (counts[x] == counts[order[j]] && key_compare_exec(rs, x, order[j]) < 0))
            invariant
                counts@.len() == rs@.len(),
                forall|v: int| 0 <= v < rs@.len() ==> #[trigger] counts@[v] == group_count(rs@, v, rs@.len()),
                forall|k: int| 0 <= k < order@.len() ==> (#[trigger] order@[k]) < rs@.len(),
                before == group_before(rs@),
                x < rs@.len(),
                j <= order.len(),
                forall|k: int| 0 <= k < j ==> !before(x as int, #[trigger] order@[k] as int),
            decreases order.len() - j,
        {
            j = j + 1;
        }
        proof {
            lemma_ins_pos_skip(before, order@, x, j as int);
            if j < order.len() {
                assert(order@.skip(j as int)[0] == order@[j as int]);
            }
            assert(heads@.take(i + 1).last() == x);
        }
        order.insert(j, x);
        proof {
            assert forall|k: int| 0 <= k < order@.len() implies (#[trigger] order@[k]) < rs@.len() by {
                if k < j {
                } else if k > j {
                }
            }
        }
        i = i + 1;
    }
    proof {
        assert(heads@.take(i as int) =~= heads@);
    }
    order
}

fn copy_opt(v: &Option<String>) -> (res: Option<String>)
    ensures
        res == *v,
{
    match v {
        Some(s) => Some(s.clone()),
        None => None,
    }
}

/// The first record, from `i` on, that is refused.
pub open spec fn first_problem(rs: Seq<HookRecordFacts>, i: int) -> Option<int>
    decreases rs.len() - i,
{
    if i < 0 || i >= rs.len() {
        None
    } else if record_problem(rs[i]) is Some {
        Some(i)
    } else {
        first_problem(rs, i + 1)
    }
}

/// The number of groups with more than one record, and the records beyond the first in
/// them.
pub open spec fn duplicate_groups(counts: Seq<nat>) -> nat
    decreases counts.len(),
{
    if counts.len() == 0 {
        0
    } else {
        duplicate_groups(counts.drop_last()) + if counts.last() > 1 { 1nat } else { 0nat }
    }
}

pub open spec fn duplicate_records(counts: Seq<nat>) -> nat
    decreases counts.len(),
{
    if counts.len() == 0 {
        0
    } else {
        duplicate_records(counts.drop_last()) + if counts.last() > 1 { (counts.last() - 1) as nat } else { 0nat }
    }
}

pub open spec fn group_counts_seq(rs: Seq<HookRecordFacts>) -> Seq<nat> {
    let og = ordered_groups(rs);
    Seq::new(og.len(), |k: int| group_count(rs, og[k] as int, rs.len()))
}

/// Validates every record (the first refused one is the error) and groups them.
pub fn check_records(records: &Vec<HookRecordFacts>) -> (res: Result<(), JevxError>)
    ensures
        records@.len() == 0 ==> (res matches Err(e) && e matches JevxError::InvalidInput(m)
            && m@ == "hook records must contain at least one record"@),
        records@.len() > 0 ==> match first_problem(records@, 0) {
            Some(i) => res matches Err(e) && e matches JevxError::InvalidInput(m) && m@ == "hook record"@
                + record_problem(records@[i])->0,
            None => res is Ok,
        },
{
    if records.len() == 0 {
        return Err(JevxError::invalid_input("hook records must contain at least one record"));
    }
    let mut i: usize = 0;
    while i < records.len()
        invariant
            i <= records.len(),
            first_problem(records@, 0) == first_problem(records@, i as int),
        decreases records.len() - i,
    {
        match validate_hook_record(&records[i], "hook record") {
            Err(e) => return Err(e),
            Ok(()) => {},
        }
        i = i + 1;
    }
    Ok(())
}

/// Groups records that share their identity (correlation, session, turn and model digests),
/// event, trigger and source; records without any identity stay alone. Groups are listed
/// by size, then by their key.
pub fn analyze_hook_correlations(records: &Vec<HookRecordFacts>) -> (res: Result<HookCorrelationReport, JevxError>)
    ensures
        records@.len() == 0 || first_problem(records@, 0) is Some <==> res is Err,
        records@.len() == 0 ==> (res matches Err(e) && e matches JevxError::InvalidInput(m)
            && m@ == "hook records must contain at least one record"@),
        records@.len() > 0 && first_problem(records@, 0) is Some ==> (res matches Err(e) && e matches JevxError::InvalidInput(m)
            && m@ == "hook record"@ + record_problem(records@[first_problem(records@, 0)->0])->0),
        res matches Ok(rep) ==> {
            let og = ordered_groups(records@);
            let cs = group_counts_seq(records@);
            &&& rep.schema_version == HOOK_SCHEMA_VERSION
            &&& rep.mode@ == "live"@
            &&& rep.record_count == records@.len()
            &&& rep.groups@.len() == og.len()
            &&& forall|k: int| 0 <= k < og.len() ==> is_group_of(#[trigger] rep.groups@[k], records@[og[k] as int], cs[k])
            &&& rep.duplicate_group_count == duplicate_groups(cs)
            &&& rep.duplicate_record_count == (if duplicate_records(cs) <= usize::MAX { duplicate_records(cs) } else { usize::MAX as nat })
            &&& is_event_count_table(records@, rep.event_counts@)
        },
{
    match check_records(records) {
        Err(e) => return Err(e),
        Ok(()) => {},
    }
    let n = records.len();
    let mut counts: Vec<usize> = Vec::new();
    let mut i: usize = 0;
    while i < n
        invariant
            n == records.len(),
            i <= n,
            counts@.len() == i,
            forall|v: int| 0 <= v < i ==> #[trigger] counts@[v] == group_count(records@, v, records@.len()),
        decreases n - i,
    {
        let c = group_count_exec(records, i);
        counts.push(c);
        i = i + 1;
    }
    let heads = group_heads_exec(records);
    let order = order_groups(records, &heads, &counts);
    let ghost og = ordered_groups(records@);
    let ghost cs = group_counts_seq(records@);
    proof {
        lemma_ins_sorted_members(group_before(records@), heads@);
        assert forall|k: int| 0 <= k < og.len() implies (#[trigger] og[k]) < records@.len() by {
            assert(heads@.contains(og[k]));
        }
    }
    let mut groups: Vec<HookCorrelationGroup> = Vec::new();
    let mut dup_groups: usize = 0;
    let mut dup_records: u128 = 0;
    let mut k: usize = 0;
    while k < order.len()
        invariant
            n == records.len(),
            order@ == og,
            og == ordered_groups(records@),
            cs == group_counts_seq(records@),
            forall|q: int| 0 <= q < og.len() ==> (#[trigger] og[q]) < records@.len(),
            counts@.len() == records@.len(),
            forall|v: int| 0 <= v < records@.len() ==> #[trigger] counts@[v] == group_count(records@, v, records@.len()),
            k <= order.len(),
            groups@.len() == k,
            forall|q: int| 0 <= q < k ==> is_group_of(#[trigger] groups@[q], records@[og[q] as int], cs[q]),
            dup_groups == duplicate_groups(cs.take(k as int)),
            dup_groups <= k,
            dup_records == duplicate_records(cs.take(k as int)),
            dup_records <= k * usize::MAX,
        decreases order.len() - k,
    {
        let h = order[k];
        let r = &records[h];
        let c = counts[h];
        proof {
            assert(cs.take(k + 1).drop_last() =~= cs.take(k as int));
            assert(cs[k as int] == c);
        }
        groups.push(HookCorrelationGroup {
            correlation_id_sha256: copy_opt(&r.correlation_id_sha256),
            session_id_sha256: copy_opt(&r.session_id_sha256),
            turn_id_sha256: copy_opt(&r.turn_id_sha256),
            model_sha256: copy_opt(&r.model_sha256),
            hook_event_name: r.hook_event_name.clone(),
            trigger: copy_opt(&r.trigger),
            source: copy_opt(&r.source),
            count: c,
        });
        if c > 1 {
            dup_groups = dup_groups + 1;
            dup_records = dup_records + (c - 1) as u128;
        }
        proof {
            assert((k + 1) * usize::MAX == k * usize::MAX + usize::MAX) by (nonlinear_arith);
        }
        k = k + 1;
    }
    proof {
        assert(cs.take(k as int) =~= cs);
    }
    let dup_records_usize: usize = if dup_records <= usize::MAX as u128 { dup_records as usize } else { usize::MAX };
    let event_counts = event_count_table(records);
    Ok(HookCorrelationReport {
        schema_version: HOOK_SCHEMA_VERSION,
        mode: "live".to_owned(),
        record_count: n,
        duplicate_group_count: dup_groups,
        duplicate_record_count: dup_records_usize,
        event_counts,
        groups,
    })
}

// ---------------------------------------------------------------------------------------
// Counting by event
// ---------------------------------------------------------------------------------------

/// How many of the first `n` records have the event name.
pub open spec fn event_count(rs: Seq<HookRecordFacts>, name: Seq<char>, n: nat) -> nat
    decreases n,
{
    if n == 0 {
        0
    } else {
        event_count(rs, name, (n - 1) as nat) + if rs[n - 1].hook_event_name@ == name { 1nat } else { 0nat }
    }
}

/// The first record with each event name, in the order the names first appear.
pub open spec fn event_heads(rs: Seq<HookRecordFacts>, n: nat) -> Seq<usize>
    decreases n,
{
    if n == 0 {
        seq![]
    } else {
        let h = event_heads(rs, (n - 1) as nat);
        if (forall|j: int| #![trigger rs[j]] 0 <= j < n - 1 ==> rs[j].hook_event_name@ != rs[n - 1].hook_event_name@) {
            h.push((n - 1) as usize)
        } else {
            h
        }
    }
}

pub open spec fn name_before(rs: Seq<HookRecordFacts>) -> spec_fn(int, int) -> bool {
    |a: int, b: int| chars_lt(rs[a].hook_event_name@, rs[b].hook_event_name@)
}

/// The event names in ascending order, each with its number of records.
pub open spec fn is_event_count_table(rs: Seq<HookRecordFacts>, t: Seq<(String, usize)>) -> bool {
    let eo = ins_sorted(name_before(rs), event_heads(rs, rs.len()));
    &&& t.len() == eo.len()
    &&& forall|k: int| 0 <= k < t.len() ==> (#[trigger] t[k]).0@ == rs[eo[k] as int].hook_event_name@
        && t[k].1 == event_count(rs, rs[eo[k] as int].hook_event_name@, rs.len())
}

fn event_count_exec(rs: &Vec<HookRecordFacts>, name: &String) -> (res: usize)
    ensures
        res == event_count(rs@, name@, rs@.len()),
{
    let nc = chars_of(name.as_str());
    let mut c: usize = 0;
    let mut j: usize = 0;
    while j < rs.len()
        invariant
            j <= rs.len(),
            c <= j,
            nc@ == name@,
            c == event_count(rs@, name@, j as nat),
        decreases rs.len() - j,
    {
        let rc = chars_of(rs[j].hook_event_name.as_str());
        if chars_eq(&rc, &nc) {
            c = c + 1;
        }
        j = j + 1;
    }
    c
}

fn event_heads_exec(rs: &Vec<HookRecordFacts>) -> (res: Vec<usize>)
    ensures
        res@ == event_heads(rs@, rs@.len()),
        forall|k: int| 0 <= k < res@.len() ==> (#[trigger] res@[k]) < rs@.len(),
{
    let mut heads: Vec<usize> = Vec::new();
    let mut i: usize = 0;
    while i < rs.len()
        invariant
            i <= rs.len(),
            heads@ == event_heads(rs@, i as nat),
            forall|k: int| 0 <= k < heads@.len() ==> (#[trigger] heads@[k]) < i,
        decreases rs.len() - i,
    {
        let ic = chars_of(rs[i].hook_event_name.as_str());
        let mut j: usize = 0;
        let mut fresh = true;
        while j < i
            invariant
                i < rs.len(),
                j <= i,
                ic@ == rs@[i as int].hook_event_name@,
                fresh == (forall|m: int| #![trigger rs@[m]] 0 <= m < j ==> rs@[m].hook_event_name@ != rs@[i as int].hook_event_name@),
            decreases i - j,
        {
            let jc = chars_of(rs[j].hook_event_name.as_str());
            if chars_eq(&jc, &ic) {
                fresh = false;
            }
            j = j + 1;
        }
        if fresh {
            heads.push(i);
        }
        i = i + 1;
    }
    heads
}

fn order_events(rs: &Vec<HookRecordFacts>, heads: &Vec<usize>) -> (res: Vec<usize>)
    requires
        forall|k: int| 0 <= k < heads@.len() ==> (#[trigger] heads@[k]) < rs@.len(),
    ensures
        res@ == ins_sorted(name_before(rs@), heads@),
{
    let ghost before = name_before(rs@);
    let mut order: Vec<usize> = Vec::new();
    let mut i: usize = 0;
    while i < heads.len()
        invariant
            forall|k: int| 0 <= k < heads@.len() ==> (#[trigger] heads@[k]) < rs@.len(),
            before == name_before(rs@),
            i <= heads.len(),
            order@ == ins_sorted(before, heads@.take(i as int)),
            forall|k: int| 0 <= k < order@.len() ==> (#[trigger] order@[k]) < rs@.len(),
        decreases heads.len() - i,
    {
        proof {
            assert(heads@.take(i + 1).drop_last() =~= heads@.take(i as int));
        }
        let x = heads[i];
        let xc = chars_of(rs[x].hook_event_name.as_str());
        let mut j: usize = 0;
        while j < order.len() && !chars_less(&xc, &chars_of(rs[order[j]].hook_event_name.as_str()))
            invariant
                forall|k: int| 0 <= k < order@.len() ==> (#[trigger] order@[k]) < rs@.len(),
                before == name_before(rs@),
                x < rs@.len(),
                xc@ == rs@[x as int].hook_event_name@,
                j <= order.len(),
                forall|k: int| 0 <= k < j ==> !before(x as int, #[trigger] order@[k] as int),
            decreases order.len() - j,
        {
            j = j + 1;
        }
        proof {
            lemma_ins_pos_skip(before, order@, x, j as int);
            if j < order.len() {
                assert(order@.skip(j as int)[0] == order@[j as int]);
            }
            assert(heads@.take(i + 1).last() == x);
        }
        order.insert(j, x);
        proof {
            assert forall|k: int| 0 <= k < order@.len() implies (#[trigger] order@[k]) < rs@.len() by {
                if k < j {
                } else if k > j {
                }
            }
        }
        i = i + 1;
    }
    proof {
        assert(heads@.take(i as int) =~= heads@);
    }
    order
}

/// Each event name of the records with its number of records, in ascending name order.
pub fn event_count_table(rs: &Vec<HookRecordFacts>) -> (res: Vec<(String, usize)>)
    ensures
        is_event_count_table(rs@, res@),
{
    let heads = event_heads_exec(rs);
    let order = order_events(rs, &heads);
    let ghost eo = ins_sorted(name_before(rs@), event_heads(rs@, rs@.len()));
    proof {
        lemma_ins_sorted_members(name_before(rs@), heads@);
        assert forall|k: int| 0 <= k < eo.len() implies (#[trigger] eo[k]) < rs@.len() by {
            assert(heads@.contains(eo[k]));
        }
    }
    let mut t: Vec<(String, usize)> = Vec::new();
    let mut k: usize = 0;
    while k < order.len()
        invariant
            order@ == eo,
            eo == ins_sorted(name_before(rs@), event_heads(rs@, rs@.len())),
            forall|q: int| 0 <= q < eo.len() ==> (#[trigger] eo[q]) < rs@.len(),
            k <= order.len(),
            t@.len() == k,
            forall|q: int| 0 <= q < k ==> (#[trigger] t@[q]).0@ == rs@[eo[q] as int].hook_event_name@
                && t@[q].1 == event_count(rs@, rs@[eo[q] as int].hook_event_name@, rs@.len()),
        decreases order.len() - k,
    {
        let h = order[k];
        let name = rs[h].hook_event_name.clone();
        let c = event_count_exec(rs, &name);
        t.push((name, c));
        k = k + 1;
    }
    t
}


// ---------------------------------------------------------------------------------------
// Statistics over records
// ---------------------------------------------------------------------------------------

/// How many of the first `n` records satisfy `p`.
pub open spec fn count_where(rs: Seq<HookRecordFacts>, n: nat, p: spec_fn(HookRecordFacts) -> bool) -> nat
    decreases n,
{
    if n == 0 {
        0
    } else {
        count_where(rs, (n - 1) as nat, p) + if p(rs[n - 1]) { 1nat } else { 0nat }
    }
}

/// The values `f` gives for the first `n` records that satisfy `p`, in order.
pub open spec fn values_where(rs: Seq<HookRecordFacts>, n: nat, p: spec_fn(HookRecordFacts) -> bool, f: spec_fn(HookRecordFacts) -> u64) -> Seq<u64>
    decreases n,
{
    if n == 0 {
        seq![]
    } else {
        let v = values_where(rs, (n - 1) as nat, p, f);
        if p(rs[n - 1]) { v.push(f(rs[n - 1])) } else { v }
    }
}

pub open spec fn seq_sum(v: Seq<u64>) -> nat
    decreases v.len(),
{
    if v.len() == 0 {
        0
    } else {
        seq_sum(v.drop_last()) + (v.last() as nat)
    }
}

/// A sum that must fit in `u64`; nothing when it does not.
pub open spec fn checked_total(v: Seq<u64>) -> Option<u64> {
    if seq_sum(v) <= u64::MAX { Some(seq_sum(v) as u64) } else { None }
}

pub open spec fn spec_percentile(v: Seq<u64>, p: nat) -> Option<u64> {
    if v.len() == 0 {
        None
    } else if percentile_rank(v.len(), p) < v.len() {
        Some(ascending(v)[percentile_rank(v.len(), p)])
    } else {
        None
    }
}

pub open spec fn any_record() -> spec_fn(HookRecordFacts) -> bool {
    |r: HookRecordFacts| true
}

pub open spec fn is_dedupe_hit() -> spec_fn(HookRecordFacts) -> bool {
    |r: HookRecordFacts| r.dedupe_hit
}

pub open spec fn has_error() -> spec_fn(HookRecordFacts) -> bool {
    |r: HookRecordFacts| r.has_error
}

pub open spec fn is_dedupe_target() -> spec_fn(HookRecordFacts) -> bool {
    |r: HookRecordFacts| r.hook_event_name@ == "UserPromptSubmit"@ && r.dedupe_key_sha256 is Some
}

pub open spec fn is_usage_measured() -> spec_fn(HookRecordFacts) -> bool {
    |r: HookRecordFacts| r.usage_measured
}

pub open spec fn has_measured_savings() -> spec_fn(HookRecordFacts) -> bool {
    |r: HookRecordFacts| r.savings matches Some(s) && s.status == MeasurementStatus::Measured
}

pub open spec fn elapsed() -> spec_fn(HookRecordFacts) -> u64 {
    |r: HookRecordFacts| r.elapsed_ms
}

pub open spec fn measured_field(which: int) -> spec_fn(HookRecordFacts) -> bool {
    |r: HookRecordFacts| r.savings matches Some(s) && s.status == MeasurementStatus::Measured && (if which == 0 {
        s.before_tokens is Some
    } else if which == 1 {
        s.after_tokens is Some
    } else {
        s.saved_tokens is Some
    })
}

pub open spec fn savings_field(which: int) -> spec_fn(HookRecordFacts) -> u64 {
    |r: HookRecordFacts| match r.savings {
        Some(s) => if which == 0 {
            match s.before_tokens { Some(v) => v, None => 0 }
        } else if which == 1 {
            match s.after_tokens { Some(v) => v, None => 0 }
        } else {
            match s.saved_tokens { Some(v) => v, None => 0 }
        },
        None => 0,
    }
}

pub open spec fn has_decision(d: CandidateDecision) -> spec_fn(HookRecordFacts) -> bool {
    |r: HookRecordFacts| r.decision == Some(d)
}

pub open spec fn cost_status_is(part: int, st: CostStatus) -> spec_fn(HookRecordFacts) -> bool {
    |r: HookRecordFacts| (if part == 0 { r.jev_cost_status } else if part == 1 { r.codex_cost_status } else { r.total_cost_status }) == st
}

/// The integer statistics of hook records. (Rates and cost amounts, which are ratios and
/// floating-point sums, are derived by the caller.)
#[derive(Debug, Clone)]
pub struct HookStatsCounts {
    pub record_count: usize,
    pub event_counts: Vec<(String, usize)>,
    pub decision_counts: Vec<(String, usize)>,
    pub error_count: usize,
    pub dedupe_hit_count: usize,
    pub dedupe_target_count: usize,
    pub latency_ms_p50: Option<u64>,
    pub latency_ms_p95: Option<u64>,
    pub dedupe_latency_ms_p50: Option<u64>,
    pub dedupe_latency_ms_p95: Option<u64>,
    pub usage_measured_records: usize,
    pub measured_savings_records: usize,
    pub before_tokens: Option<u64>,
    pub after_tokens: Option<u64>,
    pub saved_tokens: Option<u64>,
    pub cost_status_counts: Vec<(String, usize)>,
}

/// The decision labels in ascending order.
pub open spec fn decision_order() -> Seq<CandidateDecision> {
    seq![CandidateDecision::Error, CandidateDecision::Explicit, CandidateDecision::NoCandidates,
        CandidateDecision::NoMatch, CandidateDecision::Selected]
}

/// A table of the labels in `labels` (already in ascending order) whose count is not zero.
pub open spec fn nonzero_table(labels: Seq<Seq<char>>, counts: Seq<nat>) -> Seq<(Seq<char>, nat)>
    decreases labels.len(),
{
    if labels.len() == 0 || counts.len() != labels.len() {
        seq![]
    } else {
        let t = nonzero_table(labels.drop_last(), counts.drop_last());
        if counts.last() > 0 { t.push((labels.last(), counts.last())) } else { t }
    }
}

pub open spec fn table_view(t: Seq<(String, usize)>) -> Seq<(Seq<char>, nat)> {
    t.map_values(|e: (String, usize)| (e.0@, e.1 as nat))
}

pub open spec fn decision_counts_spec(rs: Seq<HookRecordFacts>) -> Seq<(Seq<char>, nat)> {
    let ds = decision_order();
    nonzero_table(
        Seq::new(5, |i: int| spec_decision_label(ds[i])),
        Seq::new(5, |i: int| count_where(rs, rs.len(), has_decision(ds[i]))),
    )
}

/// The cost-status keys (`<part>:<status>`) in ascending order.
pub open spec fn cost_keys() -> Seq<Seq<char>> {
    seq!["codex:available"@, "codex:unavailable"@, "codex:unknown"@, "jev:available"@, "jev:unavailable"@,
        "jev:unknown"@, "total:available"@, "total:unavailable"@, "total:unknown"@]
}

/// The part (0 Jev, 1 Codex, 2 total) and status of each cost key.
pub open spec fn cost_key_meaning(i: int) -> (int, CostStatus) {
    let part = if i < 3 { 1int } else if i < 6 { 0int } else { 2int };
    let st = if i % 3 == 0 { CostStatus::Available } else if i % 3 == 1 { CostStatus::Unavailable } else { CostStatus::Unknown };
    (part, st)
}

pub open spec fn cost_counts_spec(rs: Seq<HookRecordFacts>) -> Seq<(Seq<char>, nat)> {
    nonzero_table(
        cost_keys(),
        Seq::new(9, |i: int| count_where(rs, rs.len(), cost_status_is(cost_key_meaning(i).0, cost_key_meaning(i).1))),
    )
}

fn count_records_where(rs: &Vec<HookRecordFacts>, kind: u8, d: CandidateDecision, part: u8, st: CostStatus) -> (res: usize)
    requires
        kind <= 6,
        part <= 2,
    ensures
        res == count_where(rs@, rs@.len(), if kind == 0 { has_error() } else if kind == 1 { is_dedupe_hit() }
            else if kind == 2 { is_dedupe_target() } else if kind == 3 { is_usage_measured() }
            else if kind == 4 { has_measured_savings() } else if kind == 5 { has_decision(d) }
            else { cost_status_is(part as int, st) }),
        res <= rs@.len(),
{
    let ghost p = if kind == 0 { has_error() } else if kind == 1 { is_dedupe_hit() }
        else if kind == 2 { is_dedupe_target() } else if kind == 3 { is_usage_measured() }
        else if kind == 4 { has_measured_savings() } else if kind == 5 { has_decision(d) }
        else { cost_status_is(part as int, st) };
    let mut c: usize = 0;
    let mut i: usize = 0;
    while i < rs.len()
        invariant
            i <= rs.len(),
            c <= i,
            kind <= 6,
            part <= 2,
            p == (if kind == 0 { has_error() } else if kind == 1 { is_dedupe_hit() }
                else if kind == 2 { is_dedupe_target() } else if kind == 3 { is_usage_measured() }
                else if kind == 4 { has_measured_savings() } else if kind == 5 { has_decision(d) }
                else { cost_status_is(part as int, st) }),
            c == count_where(rs@, i as nat, p),
        decreases rs.len() - i,
    {
        let r = &rs[i];
        let hit = if kind == 0 {
            r.has_error
        } else if kind == 1 {
            r.dedupe_hit
        } else if kind == 2 {
            let n = chars_of(r.hook_event_name.as_str());
            eq_lit(&n, "UserPromptSubmit") && r.dedupe_key_sha256.is_some()
        } else if kind == 3 {
            r.usage_measured
        } else if kind == 4 {
            match r.savings {
                Some(s) => s.status == MeasurementStatus::Measured,
                None => false,
            }
        } else if kind == 5 {
            r.decision == Some(d)
        } else {
            let s = if part == 0 { r.jev_cost_status } else if part == 1 { r.codex_cost_status } else { r.total_cost_status };
            s == st
        };
        proof {
            assert(hit == p(rs@[i as int]));
        }
        if hit {
            c = c + 1;
        }
        i = i + 1;
    }
    c
}

fn latencies(rs: &Vec<HookRecordFacts>, only_dedupe_hits: bool) -> (res: Vec<u64>)
    ensures
        res@ == values_where(rs@, rs@.len(), if only_dedupe_hits { is_dedupe_hit() } else { any_record() }, elapsed()),
        res@.len() <= rs@.len(),
{
    let ghost p = if only_dedupe_hits { is_dedupe_hit() } else { any_record() };
    let mut v: Vec<u64> = Vec::new();
    let mut i: usize = 0;
    while i < rs.len()
        invariant
            i <= rs.len(),
            v@.len() <= i,
            p == (if only_dedupe_hits { is_dedupe_hit() } else { any_record() }),
            v@ == values_where(rs@, i as nat, p, elapsed()),
        decreases rs.len() - i,
    {
        if !only_dedupe_hits || rs[i].dedupe_hit {
            v.push(rs[i].elapsed_ms);
        }
        i = i + 1;
    }
    v
}

fn savings_total(rs: &Vec<HookRecordFacts>, which: u8) -> (res: Option<u64>)
    requires
        which <= 2,
    ensures
        res == checked_total(values_where(rs@, rs@.len(), measured_field(which as int), savings_field(which as int))),
{
    let ghost p = measured_field(which as int);
    let ghost f = savings_field(which as int);
    let mut total: u128 = 0;
    let mut i: usize = 0;
    while i < rs.len()
        invariant
            i <= rs.len(),
            which <= 2,
            p == measured_field(which as int),
            f == savings_field(which as int),
            total == seq_sum(values_where(rs@, i as nat, p, f)),
            values_where(rs@, i as nat, p, f).len() <= i,
            total <= i * 0xffff_ffff_ffff_ffffu128,
        decreases rs.len() - i,
    {
        let r = &rs[i];
        let v: Option<u64> = match r.savings {
            Some(s) => if s.status == MeasurementStatus::Measured {
                if which == 0 { s.before_tokens } else if which == 1 { s.after_tokens } else { s.saved_tokens }
            } else {
                None
            },
            None => None,
        };
        proof {
            assert(v is Some == p(rs@[i as int]));
            assert(v matches Some(x) ==> x == f(rs@[i as int]));
            if p(rs@[i as int]) {
                assert(values_where(rs@, (i + 1) as nat, p, f).drop_last() =~= values_where(rs@, i as nat, p, f));
            }
        }
        match v {
            Some(x) => {
                total = total + x as u128;
                proof {
                    assert((i + 1) * 0xffff_ffff_ffff_ffffu128 == i * 0xffff_ffff_ffff_ffffu128 + 0xffff_ffff_ffff_ffffu128) by (nonlinear_arith);
                }
            },
            None => {
                proof {
                    assert((i + 1) * 0xffff_ffff_ffff_ffffu128 >= i * 0xffff_ffff_ffff_ffffu128) by (nonlinear_arith);
                }
            },
        }
        i = i + 1;
    }
    if total <= 0xffff_ffff_ffff_ffffu128 {
        Some(total as u64)
    } else {
        None
    }
}

pub fn nonzero_table_exec(labels: &Vec<&'static str>, counts: &Vec<usize>) -> (res: Vec<(String, usize)>)
    requires
        labels@.len() == counts@.len(),
    ensures
        table_view(res@) == nonzero_table(labels@.map_values(|l: &'static str| l@), counts@.map_values(|c: usize| c as nat)),
{
    let ghost ls = labels@.map_values(|l: &'static str| l@);
    let ghost cs = counts@.map_values(|c: usize| c as nat);
    let mut t: Vec<(String, usize)> = Vec::new();
    let mut i: usize = 0;
    while i < labels.len()
        invariant
            labels@.len() == counts@.len(),
            ls == labels@.map_values(|l: &'static str| l@),
            cs == counts@.map_values(|c: usize| c as nat),
            i <= labels.len(),
            table_view(t@) == nonzero_table(ls.take(i as int), cs.take(i as int)),
        decreases labels.len() - i,
    {
        proof {
            assert(ls.take(i + 1).drop_last() =~= ls.take(i as int));
            assert(cs.take(i + 1).drop_last() =~= cs.take(i as int));
        }
        if counts[i] > 0 {
            let ghost before = table_view(t@);
            t.push((labels[i].to_owned(), counts[i]));
            proof {
                assert(table_view(t@) =~= before.push((ls[i as int], cs[i as int])));
            }
        }
        i = i + 1;
    }
    proof {
        assert(ls.take(i as int) =~= ls);
        assert(cs.take(i as int) =~= cs);
    }
    t
}

/// The statistics of valid hook records; an empty or invalid record set is refused as
/// correlation analysis refuses it.
pub fn analyze_hook_counts(records: &Vec<HookRecordFacts>) -> (res: Result<HookStatsCounts, JevxError>)
    requires
        records@.len() * 95 <= usize::MAX,
    ensures
        records@.len() == 0 || first_problem(records@, 0) is Some <==> res is Err,
        records@.len() == 0 ==> (res matches Err(e) && e matches JevxError::InvalidInput(m)
            && m@ == "hook records must contain at least one record"@),
        records@.len() > 0 && first_problem(records@, 0) is Some ==> (res matches Err(e) && e matches JevxError::InvalidInput(m)
            && m@ == "hook record"@ + record_problem(records@[first_problem(records@, 0)->0])->0),
        res matches Ok(st) ==> {
            let rs = records@;
            let n = rs.len();
            let lat = values_where(rs, n, any_record(), elapsed());
            let dlat = values_where(rs, n, is_dedupe_hit(), elapsed());
            &&& st.record_count == n
            &&& is_event_count_table(rs, st.event_counts@)
            &&& table_view(st.decision_counts@) == decision_counts_spec(rs)
            &&& st.error_count == count_where(rs, n, has_error())
            &&& st.dedupe_hit_count == count_where(rs, n, is_dedupe_hit())
            &&& st.dedupe_target_count == count_where(rs, n, is_dedupe_target())
            &&& st.latency_ms_p50 == spec_percentile(lat, 50)
            &&& st.latency_ms_p95 == spec_percentile(lat, 95)
            &&& st.dedupe_latency_ms_p50 == spec_percentile(dlat, 50)
            &&& st.dedupe_latency_ms_p95 == spec_percentile(dlat, 95)
            &&& st.usage_measured_records == count_where(rs, n, is_usage_measured())
            &&& st.measured_savings_records == count_where(rs, n, has_measured_savings())
            &&& st.before_tokens == (if st.measured_savings_records > 0 { checked_total(values_where(rs, n, measured_field(0), savings_field(0))) } else { None })
            &&& st.after_tokens == (if st.measured_savings_records > 0 { checked_total(values_where(rs, n, measured_field(1), savings_field(1))) } else { None })
            &&& st.saved_tokens == (if st.measured_savings_records > 0 { checked_total(values_where(rs, n, measured_field(2), savings_field(2))) } else { None })
            &&& table_view(st.cost_status_counts@) == cost_counts_spec(rs)
        },
{
    match check_records(records) {
        Err(e) => return Err(e),
        Ok(()) => {},
    }
    let n = records.len();
    let error_count = count_records_where(records, 0, CandidateDecision::Error, 0, CostStatus::Available);
    let dedupe_hit_count = count_records_where(records, 1, CandidateDecision::Error, 0, CostStatus::Available);
    let dedupe_target_count = count_records_where(records, 2, CandidateDecision::Error, 0, CostStatus::Available);
    let usage_measured = count_records_where(records, 3, CandidateDecision::Error, 0, CostStatus::Available);
    let measured = count_records_where(records, 4, CandidateDecision::Error, 0, CostStatus::Available);
    let lat = latencies(records, false);
    let dlat = latencies(records, true);
    let p50 = percentile(lat.as_slice(), 50);
    let p95 = percentile(lat.as_slice(), 95);
    let dp50 = percentile(dlat.as_slice(), 50);
    let dp95 = percentile(dlat.as_slice(), 95);
    let (before, after, saved) = if measured > 0 {
        (savings_total(records, 0), savings_total(records, 1), savings_total(records, 2))
    } else {
        (None, None, None)
    };
    let ds = vec![CandidateDecision::Error, CandidateDecision::Explicit, CandidateDecision::NoCandidates,
        CandidateDecision::NoMatch, CandidateDecision::Selected];
    let mut dlabels: Vec<&'static str> = Vec::new();
    let mut dcounts: Vec<usize> = Vec::new();
    let mut i: usize = 0;
    while i < 5
        invariant
            i <= 5,
            ds@ == decision_order(),
            dlabels@.len() == i,
            dcounts@.len() == i,
            forall|k: int| 0 <= k < i ==> (#[trigger] dlabels@[k])@ == spec_decision_label(ds@[k]),
            forall|k: int| 0 <= k < i ==> #[trigger] dcounts@[k] == count_where(records@, records@.len(), has_decision(ds@[k])),
        decreases 5 - i,
    {
        dlabels.push(decision_label(ds[i]));
        dcounts.push(count_records_where(records, 5, ds[i], 0, CostStatus::Available));
        i = i + 1;
    }
    proof {
        assert(dlabels@.map_values(|l: &'static str| l@) =~= Seq::new(5, |i: int| spec_decision_label(decision_order()[i])));
        assert(dcounts@.map_values(|c: usize| c as nat) =~= Seq::new(5, |i: int| count_where(records@, records@.len(), has_decision(decision_order()[i]))));
    }
    let decision_counts = nonzero_table_exec(&dlabels, &dcounts);
    let ckeys: Vec<&'static str> = vec!["codex:available", "codex:unavailable", "codex:unknown", "jev:available",
        "jev:unavailable", "jev:unknown", "total:available", "total:unavailable", "total:unknown"];
    let mut ccounts: Vec<usize> = Vec::new();
    let mut j: usize = 0;
    while j < 9
        invariant
            j <= 9,
            ccounts@.len() == j,
            forall|k: int| 0 <= k < j ==> #[trigger] ccounts@[k] == count_where(records@, records@.len(), cost_status_is(cost_key_meaning(k).0, cost_key_meaning(k).1)),
        decreases 9 - j,
    {
        let part: u8 = if j < 3 { 1 } else if j < 6 { 0 } else { 2 };
        let st = if j % 3 == 0 { CostStatus::Available } else if j % 3 == 1 { CostStatus::Unavailable } else { CostStatus::Unknown };
        ccounts.push(count_records_where(records, 6, CandidateDecision::Error, part, st));
        j = j + 1;
    }
    proof {
        assert(ckeys@.map_values(|l: &'static str| l@) =~= cost_keys());
        assert(ccounts@.map_values(|c: usize| c as nat) =~= Seq::new(9, |i: int| count_where(records@, records@.len(), cost_status_is(cost_key_meaning(i).0, cost_key_meaning(i).1))));
    }
    let cost_status_counts = nonzero_table_exec(&ckeys, &ccounts);
    Ok(HookStatsCounts {
        record_count: n,
        event_counts: event_count_table(records),
        decision_counts,
        error_count,
        dedupe_hit_count,
        dedupe_target_count,
        latency_ms_p50: p50,
        latency_ms_p95: p95,
        dedupe_latency_ms_p50: dp50,
        dedupe_latency_ms_p95: dp95,
        usage_measured_records: usage_measured,
        measured_savings_records: measured,
        before_tokens: before,
        after_tokens: after,
        saved_tokens: saved,
        cost_status_counts,
    })
}


// ---------------------------------------------------------------------------------------
// Observing a hook event
// ---------------------------------------------------------------------------------------

/// The event must be named, known, and the one the hook was installed for (when given).
pub fn check_hook_event(event: Option<&str>, expected: Option<&str>) -> (res: Result<(), JevxError>)
    ensures
        event is None ==> (res matches Err(e) && e matches JevxError::InvalidInput(m) && m@ == "hook event is required"@),
        event is Some && !is_known_event(event->0@) ==> (res matches Err(e) && e matches JevxError::InvalidInput(m)
            && m@ == "unsupported hook event: "@ + event->0@),
        event is Some && is_known_event(event->0@) && expected is Some && expected->0@ != event->0@ ==> (
            res matches Err(e) && e matches JevxError::InvalidInput(m)
            && m@ == "hook event mismatch: expected "@ + expected->0@ + ", got "@ + event->0@),
        event is Some && is_known_event(event->0@) && !(expected is Some && expected->0@ != event->0@) ==> res is Ok,
{
    let ev = match event {
        Some(ev) => ev,
        None => return Err(JevxError::invalid_input("hook event is required")),
    };
    let evc = chars_of(ev);
    if !(eq_lit(&evc, "SessionStart") || eq_lit(&evc, "PreCompact") || eq_lit(&evc, "PostCompact") || eq_lit(&evc, "UserPromptSubmit")) {
        let m = concat3("unsupported hook event: ", ev, "");
        proof {
            reveal_strlit("");
            assert(m@ =~= "unsupported hook event: "@ + ev@);
        }
        return Err(JevxError::InvalidInput(m));
    }
    if let Some(x) = expected {
        let xc = chars_of(x);
        if !chars_eq(&xc, &evc) {
            let head = concat3("hook event mismatch: expected ", x, ", got ");
            let m = concat3(head.as_str(), ev, "");
            proof {
                reveal_strlit("");
                assert(m@ =~= "hook event mismatch: expected "@ + x@ + ", got "@ + ev@);
            }
            return Err(JevxError::InvalidInput(m));
        }
    }
    proof {
        reveal_strlit("");
    }
    Ok(())
}

/// The correlation digest of an event: of `session:turn`, or of the session alone; none
/// without a session.
pub open spec fn spec_correlation(session: Option<Seq<char>>, turn: Option<Seq<char>>) -> Option<Seq<char>> {
    match (session, turn) {
        (Some(s), Some(t)) => Some(sha256_of(s + ":"@ + t)),
        (Some(s), None) => Some(sha256_of(s)),
        _ => None,
    }
}

pub fn correlation_digest(session_id: Option<&str>, turn_id: Option<&str>) -> (res: Option<String>)
    ensures
        opt_string(res) == spec_correlation(opt_str(session_id), opt_str(turn_id)),
{
    match (session_id, turn_id) {
        (Some(s), Some(t)) => {
            let v = concat3(s, ":", t);
            Some(sha256_hex(v.as_str()))
        },
        (Some(s), None) => Some(sha256_hex(s)),
        _ => None,
    }
}

pub open spec fn unit_sep() -> Seq<char> {
    seq!['\u{1f}']
}

pub open spec fn record_sep() -> Seq<char> {
    seq!['\u{1e}']
}

/// The descriptor of a skill that the skills digest covers.
pub open spec fn skill_descriptor(s: SkillRecord) -> Seq<char> {
    s.id@ + unit_sep() + s.name@ + unit_sep() + s.description@ + unit_sep() + s.path@ + unit_sep() + s.source@
}

pub open spec fn descriptor_before(ds: Seq<Seq<char>>) -> spec_fn(int, int) -> bool {
    |a: int, b: int| chars_lt(ds[a], ds[b])
}

pub open spec fn indexes(n: nat) -> Seq<usize> {
    Seq::new(n, |i: int| i as usize)
}

/// The digest of a set of skills: their descriptors in ascending order, joined by the
/// record separator.
pub open spec fn spec_skills_digest(skills: Seq<SkillRecord>) -> Seq<char> {
    let ds = skills.map_values(|s: SkillRecord| skill_descriptor(s));
    let order = ins_sorted(descriptor_before(ds), indexes(ds.len()));
    sha256_of(join(order.map_values(|i: usize| ds[i as int]), record_sep()))
}

fn descriptor(s: &SkillRecord) -> (res: Vec<char>)
    ensures
        res@ == skill_descriptor(*s),
{
    let sep: [char; 1] = ['\u{1f}'];
    proof {
        assert(sep@ =~= unit_sep());
    }
    let mut v = chars_of(s.id.as_str());
    append_chars(&mut v, &sep);
    append_chars(&mut v, &chars_of(s.name.as_str()));
    append_chars(&mut v, &sep);
    append_chars(&mut v, &chars_of(s.description.as_str()));
    append_chars(&mut v, &sep);
    append_chars(&mut v, &chars_of(s.path.as_str()));
    append_chars(&mut v, &sep);
    append_chars(&mut v, &chars_of(s.source.as_str()));
    v
}

pub fn skills_digest(skills: &Vec<SkillRecord>) -> (res: String)
    ensures
        res@ == spec_skills_digest(skills@),
{
    let ghost ds = skills@.map_values(|s: SkillRecord| skill_descriptor(s));
    let mut descs: Vec<Vec<char>> = Vec::new();
    let mut i: usize = 0;
    while i < skills.len()
        invariant
            i <= skills.len(),
            ds == skills@.map_values(|s: SkillRecord| skill_descriptor(s)),
            vviews(descs@) == ds.take(i as int),
        decreases skills.len() - i,
    {
        let d = descriptor(&skills[i]);
        let ghost before = vviews(descs@);
        descs.push(d);
        proof {
            assert(vviews(descs@) =~= before.push(ds[i as int]));
            assert(vviews(descs@) =~= ds.take(i + 1));
        }
        i = i + 1;
    }
    proof {
        assert(ds.take(i as int) =~= ds);
    }
    let ghost before = descriptor_before(ds);
    let mut order: Vec<usize> = Vec::new();
    let mut k: usize = 0;
    while k < descs.len()
        invariant
            vviews(descs@) == ds,
            before == descriptor_before(ds),
            k <= descs.len(),
            order@ == ins_sorted(before, indexes(descs@.len() as nat).take(k as int)),
            forall|q: int| 0 <= q < order@.len() ==> (#[trigger] order@[q]) < descs@.len(),
        decreases descs.len() - k,
    {
        proof {
            assert(indexes(descs@.len() as nat).take(k + 1).drop_last() =~= indexes(descs@.len() as nat).take(k as int));
            assert(indexes(descs@.len() as nat).take(k + 1).last() == k);
        }
        let mut j: usize = 0;
        while j < order.len() && !chars_less(&descs[k], &descs[order[j]])
            invariant
                vviews(descs@) == ds,
                before == descriptor_before(ds),
                k < descs.len(),
                forall|q: int| 0 <= q < order@.len() ==> (#[trigger] order@[q]) < descs@.len(),
                j <= order.len(),
                forall|q: int| 0 <= q < j ==> !before(k as int, #[trigger] order@[q] as int),
            decreases order.len() - j,
        {
            proof {
                assert(ds[k as int] == descs@[k as int]@);
                assert(ds[order@[j as int] as int] == descs@[order@[j as int] as int]@);
            }
            j = j + 1;
        }
        proof {
            lemma_ins_pos_skip(before, order@, k, j as int);
            if j < order.len() {
                assert(order@.skip(j as int)[0] == order@[j as int]);
                assert(ds[k as int] == descs@[k as int]@);
                assert(ds[order@[j as int] as int] == descs@[order@[j as int] as int]@);
            }
        }
        order.insert(j, k);
        proof {
            assert forall|q: int| 0 <= q < order@.len() implies (#[trigger] order@[q]) < descs@.len() by {
                if q < j {
                } else if q > j {
                }
            }
        }
        k = k + 1;
    }
    proof {
        assert(indexes(descs@.len() as nat).take(k as int) =~= indexes(ds.len()));
    }
    let mut sorted: Vec<Vec<char>> = Vec::new();
    let mut m: usize = 0;
    while m < order.len()
        invariant
            vviews(descs@) == ds,
            order@ == ins_sorted(before, indexes(ds.len())),
            forall|q: int| 0 <= q < order@.len() ==> (#[trigger] order@[q]) < descs@.len(),
            m <= order.len(),
            vviews(sorted@) == order@.map_values(|i: usize| ds[i as int]).take(m as int),
        decreases order.len() - m,
    {
        let d = crate::text::slice_vec(&descs[order[m]], 0, descs[order[m]].len());
        let ghost prev = vviews(sorted@);
        sorted.push(d);
        proof {
            assert(d@ =~= ds[order@[m as int] as int]);
            assert(vviews(sorted@) =~= prev.push(d@));
            assert(vviews(sorted@) =~= order@.map_values(|i: usize| ds[i as int]).take(m + 1));
        }
        m = m + 1;
    }
    proof {
        assert(order@.map_values(|i: usize| ds[i as int]).take(m as int) =~= order@.map_values(|i: usize| ds[i as int]));
    }
    let rs: [char; 1] = ['\u{1e}'];
    proof {
        assert(rs@ =~= record_sep());
    }
    let joined = join_chars(&sorted, &rs);
    let text = string_from_chars(&joined);
    sha256_hex(text.as_str())
}

/// The key a repeated prompt submission is recognised by: present when the session, turn
/// and prompt digests are; the digest of the session, turn, model, event, trigger, source,
/// prompt, working-directory digest, skills digest and configuration digest, joined by the
/// unit separator (missing parts empty).
pub open spec fn spec_dedupe_key(
    session: Option<Seq<char>>, turn: Option<Seq<char>>, model: Option<Seq<char>>, event: Seq<char>,
    trigger: Option<Seq<char>>, source: Option<Seq<char>>, prompt: Option<Seq<char>>, cwd: Seq<char>,
    skills_digest: Seq<char>, config_digest: Seq<char>,
) -> Option<Seq<char>> {
    match (session, turn, prompt) {
        (Some(s), Some(t), Some(p)) => {
            let or_empty = |v: Option<Seq<char>>| match v { Some(x) => x, None => Seq::<char>::empty() };
            Some(sha256_of(join(seq![s, t, or_empty(model), event, or_empty(trigger), or_empty(source), p,
                sha256_of(cwd), skills_digest, config_digest], unit_sep())))
        },
        _ => None,
    }
}

fn or_empty(v: &Option<String>) -> (res: Vec<char>)
    ensures
        res@ == match opt_string(*v) { Some(x) => x, None => Seq::<char>::empty() },
{
    match v {
        Some(s) => chars_of(s.as_str()),
        None => Vec::new(),
    }
}

pub fn dedupe_key(
    session: &Option<String>, turn: &Option<String>, model: &Option<String>, event: &str,
    trigger: &Option<String>, source: &Option<String>, prompt: &Option<String>, cwd: &str,
    skills_digest: &str, config_digest: &str,
) -> (res: Option<String>)
    ensures
        opt_string(res) == spec_dedupe_key(opt_string(*session), opt_string(*turn), opt_string(*model), event@,
            opt_string(*trigger), opt_string(*source), opt_string(*prompt), cwd@, skills_digest@, config_digest@),
{
    let (s, t, p) = match (session, turn, prompt) {
        (Some(s), Some(t), Some(p)) => (s, t, p),
        _ => return None,
    };
    let cwd_digest = sha256_hex(cwd);
    let parts: Vec<Vec<char>> = vec![chars_of(s.as_str()), chars_of(t.as_str()), or_empty(model), chars_of(event),
        or_empty(trigger), or_empty(source), chars_of(p.as_str()), chars_of(cwd_digest.as_str()),
        chars_of(skills_digest), chars_of(config_digest)];
    let sep: [char; 1] = ['\u{1f}'];
    proof {
        assert(sep@ =~= unit_sep());
        let or_e = |v: Option<Seq<char>>| match v { Some(x) => x, None => Seq::<char>::empty() };
        assert(vviews(parts@) =~= seq![s@, t@, or_e(opt_string(*model)), event@, or_e(opt_string(*trigger)),
            or_e(opt_string(*source)), p@, sha256_of(cwd@), skills_digest@, config_digest@]);
    }
    let joined = join_chars(&parts, &sep);
    let text = string_from_chars(&joined);
    Some(sha256_hex(text.as_str()))
}

/// What a prompt submission leads to before the suggestion: an error code (a
/// de-duplication failure takes precedence), or the trimmed prompt to suggest for.
pub fn prompt_step(dedupe_error: bool, prompt: Option<&str>, has_judge: bool) -> (res: Result<String, &'static str>)
    ensures
        ({
            let p = match prompt { Some(v) => trim(v@), None => Seq::<char>::empty() };
            &&& p.len() == 0 ==> (res matches Err(c) && c@ == (if dedupe_error { "dedupe_error"@ } else { "invalid_input"@ }))
            &&& p.len() > 0 && !has_judge ==> (res matches Err(c) && c@ == (if dedupe_error { "dedupe_error"@ } else { "missing_api_key"@ }))
            &&& p.len() > 0 && has_judge ==> (res matches Ok(s) && s@ == p)
        }),
{
    let t = match prompt {
        Some(v) => {
            let c = chars_of(v);
            trim_chars(&c)
        },
        None => Vec::new(),
    };
    if t.len() == 0 {
        return Err(if dedupe_error { "dedupe_error" } else { "invalid_input" });
    }
    if !has_judge {
        return Err(if dedupe_error { "dedupe_error" } else { "missing_api_key" });
    }
    Ok(string_from_chars(&t))
}

/// The error code of a failed suggestion; a de-duplication failure takes precedence.
pub fn shadow_error_code(dedupe_error: bool, code: &'static str) -> (res: &'static str)
    ensures
        res@ == (if dedupe_error { "dedupe_error"@ } else { code@ }),
{
    if dedupe_error { "dedupe_error" } else { code }
}

/// A suggestion is remembered for repeated submissions unless it fell back or failed.
pub fn should_cache_decision(fallback: Option<bool>, decision: CandidateDecision) -> (res: bool)
    ensures
        res == (fallback != Some(true) && decision != CandidateDecision::Error),
{
    fallback != Some(true) && decision != CandidateDecision::Error
}


// ---------------------------------------------------------------------------------------
// Compaction evaluation
// ---------------------------------------------------------------------------------------

/// What is checked and measured of a recorded compaction case. The validity of its cost
/// and Codex usage (which involve amounts) is judged by the caller.
#[derive(Debug, Clone)]
pub struct ConversationCaseFacts {
    pub case_id: String,
    pub required_facts: Vec<String>,
    pub follow_up_text: String,
    pub secret_markers: Vec<String>,
    pub model: Option<String>,
    pub compaction_completed: bool,
    pub input_chars: usize,
    pub conversation_turns: usize,
    pub context_chars: usize,
    pub failure_recovery_required: bool,
    pub tool_history_items: usize,
    pub tool_failure_count: usize,
    pub interrupted_turns: usize,
    pub recovery_turns: usize,
    pub recovery_completed: bool,
    pub pre_compaction_usage: Option<TokenUsageSnapshot>,
    pub compaction_usage: Option<TokenUsageSnapshot>,
    pub post_compaction_usage: Option<TokenUsageSnapshot>,
    pub post_compaction_cost_valid: bool,
    pub codex_usage_valid: bool,
    pub observed_events: Vec<String>,
}

pub open spec fn items_ok(items: Seq<String>) -> bool {
    forall|i: int| 0 <= i < items.len() ==> (#[trigger] items[i])@.len() > 0 && items[i]@.len() <= 512
}

pub open spec fn events_ok(items: Seq<String>) -> bool {
    forall|i: int| 0 <= i < items.len() ==> spec_safe_identifier((#[trigger] items[i])@, 64, false)
}

/// The first problem of a case, in the order the checks are made.
pub open spec fn case_problem(c: ConversationCaseFacts) -> Option<Seq<char>> {
    if !spec_safe_identifier(c.case_id@, 64, false) {
        Some(": caseId must be a short ASCII identifier"@)
    } else if c.required_facts@.len() == 0 || c.required_facts@.len() > 32 {
        Some(": requiredFacts must contain 1..32 items"@)
    } else if !items_ok(c.required_facts@) {
        Some(": requiredFacts contains an invalid item"@)
    } else if c.secret_markers@.len() == 0 || c.secret_markers@.len() > 32 {
        Some(": secretMarkers must contain 1..32 items"@)
    } else if !opt_ident(c.model, 128, false) {
        Some(": model must be a short ASCII identifier"@)
    } else if !items_ok(c.secret_markers@) {
        Some(": secretMarkers contains an invalid item"@)
    } else if c.follow_up_text@.len() > 1_000_000 {
        Some(": followUpText is too large"@)
    } else if c.input_chars > 1_000_000 {
        Some(": inputChars is too large"@)
    } else if c.conversation_turns > 1_024 {
        Some(": conversationTurns is too large"@)
    } else if c.context_chars > 10_000_000 {
        Some(": contextChars is too large"@)
    } else if c.tool_failure_count > c.tool_history_items {
        Some(": toolFailureCount must not exceed toolHistoryItems"@)
    } else if c.recovery_turns > c.conversation_turns {
        Some(": recoveryTurns must not exceed conversationTurns"@)
    } else if !usage_ok(c.pre_compaction_usage) {
        Some(": preCompactionUsage: cachedInputTokens must not exceed inputTokens"@)
    } else if !usage_ok(c.compaction_usage) {
        Some(": compactionUsage: cachedInputTokens must not exceed inputTokens"@)
    } else if !usage_ok(c.post_compaction_usage) {
        Some(": postCompactionUsage: cachedInputTokens must not exceed inputTokens"@)
    } else if !c.post_compaction_cost_valid {
        Some(": postCompactionCost has invalid status, amount, or metadata"@)
    } else if !c.codex_usage_valid {
        Some(": codexUsage contains unsafe metadata"@)
    } else if c.observed_events@.len() == 0 || c.observed_events@.len() > 32 {
        Some(": observedEvents must contain 1..32 items"@)
    } else if !events_ok(c.observed_events@) {
        Some(": observedEvents contains an invalid item"@)
    } else {
        None
    }
}

fn items_ok_exec(items: &Vec<String>) -> (res: bool)
    ensures
        res == items_ok(items@),
{
    let mut i: usize = 0;
    while i < items.len()
        invariant
            i <= items.len(),
            forall|k: int| 0 <= k < i ==> (#[trigger] items@[k])@.len() > 0 && items@[k]@.len() <= 512,
        decreases items.len() - i,
    {
        let c = chars_of(items[i].as_str());
        if c.len() == 0 || c.len() > 512 {
            return false;
        }
        i = i + 1;
    }
    true
}

fn events_ok_exec(items: &Vec<String>) -> (res: bool)
    ensures
        res == events_ok(items@),
{
    let mut i: usize = 0;
    while i < items.len()
        invariant
            i <= items.len(),
            forall|k: int| 0 <= k < i ==> spec_safe_identifier((#[trigger] items@[k])@, 64, false),
        decreases items.len() - i,
    {
        if !safe_identifier(items[i].as_str(), 64) {
            return false;
        }
        i = i + 1;
    }
    true
}

/// Checks a recorded compaction case; the error names the context and the first problem.
pub fn validate_conversation_case(c: &ConversationCaseFacts, context: &str) -> (res: Result<(), JevxError>)
    ensures
        res is Ok <==> case_problem(*c) is None,
        res matches Err(e) ==> e matches JevxError::InvalidInput(m) && m@ == context@ + case_problem(*c)->0,
{
    let text_len = chars_of(c.follow_up_text.as_str()).len();
    let problem: &str = if !safe_identifier(c.case_id.as_str(), 64) {
        ": caseId must be a short ASCII identifier"
    } else if c.required_facts.len() == 0 || c.required_facts.len() > 32 {
        ": requiredFacts must contain 1..32 items"
    } else if !items_ok_exec(&c.required_facts) {
        ": requiredFacts contains an invalid item"
    } else if c.secret_markers.len() == 0 || c.secret_markers.len() > 32 {
        ": secretMarkers must contain 1..32 items"
    } else if !opt_ident_exec(&c.model, 128, false) {
        ": model must be a short ASCII identifier"
    } else if !items_ok_exec(&c.secret_markers) {
        ": secretMarkers contains an invalid item"
    } else if text_len > 1_000_000 {
        ": followUpText is too large"
    } else if c.input_chars > 1_000_000 {
        ": inputChars is too large"
    } else if c.conversation_turns > 1_024 {
        ": conversationTurns is too large"
    } else if c.context_chars > 10_000_000 {
        ": contextChars is too large"
    } else if c.tool_failure_count > c.tool_history_items {
        ": toolFailureCount must not exceed toolHistoryItems"
    } else if c.recovery_turns > c.conversation_turns {
        ": recoveryTurns must not exceed conversationTurns"
    } else if !usage_ok_exec(&c.pre_compaction_usage) {
        ": preCompactionUsage: cachedInputTokens must not exceed inputTokens"
    } else if !usage_ok_exec(&c.compaction_usage) {
        ": compactionUsage: cachedInputTokens must not exceed inputTokens"
    } else if !usage_ok_exec(&c.post_compaction_usage) {
        ": postCompactionUsage: cachedInputTokens must not exceed inputTokens"
    } else if !c.post_compaction_cost_valid {
        ": postCompactionCost has invalid status, amount, or metadata"
    } else if !c.codex_usage_valid {
        ": codexUsage contains unsafe metadata"
    } else if c.observed_events.len() == 0 || c.observed_events.len() > 32 {
        ": observedEvents must contain 1..32 items"
    } else if !events_ok_exec(&c.observed_events) {
        ": observedEvents contains an invalid item"
    } else {
        return Ok(());
    };
    let m = concat3(context, problem, "");
    proof {
        reveal_strlit("");
        assert(m@ =~= context@ + problem@);
    }
    Err(JevxError::InvalidInput(m))
}

/// How many of the texts occur in `response` (facts may also appear as `key: value`).
pub open spec fn retained_count(response: Seq<char>, facts: Seq<String>) -> nat
    decreases facts.len(),
{
    if facts.len() == 0 {
        0
    } else {
        retained_count(response, facts.drop_last()) + if spec_fact_is_retained(response, facts.last()@) { 1nat } else { 0nat }
    }
}

pub open spec fn leak_count(response: Seq<char>, markers: Seq<String>) -> nat
    decreases markers.len(),
{
    if markers.len() == 0 {
        0
    } else {
        leak_count(response, markers.drop_last()) + if contains_seq(response, markers.last()@) { 1nat } else { 0nat }
    }
}

/// The outcome of one recorded case: facts retained, secrets leaked, and the error code:
/// an incomplete compaction, then an incomplete recovery, then a lost fact.
#[derive(Debug, Clone)]
pub struct CaseOutcome {
    pub retained_required_facts: usize,
    pub secret_leaks: usize,
    pub output_chars: usize,
    pub error_code: Option<&'static str>,
}

pub fn case_outcome(c: &ConversationCaseFacts) -> (res: CaseOutcome)
    ensures
        res.retained_required_facts == retained_count(c.follow_up_text@, c.required_facts@),
        res.secret_leaks == leak_count(c.follow_up_text@, c.secret_markers@),
        res.output_chars == c.follow_up_text@.len(),
        match res.error_code {
            Some(code) => if !c.compaction_completed {
                code@ == "compaction_incomplete"@
            } else if c.failure_recovery_required && !c.recovery_completed {
                code@ == "recovery_incomplete"@
            } else {
                code@ == "required_fact_lost"@ && res.retained_required_facts != c.required_facts@.len()
            },
            None => c.compaction_completed && !(c.failure_recovery_required && !c.recovery_completed)
                && res.retained_required_facts == c.required_facts@.len(),
        },
{
    let mut retained: usize = 0;
    let mut i: usize = 0;
    while i < c.required_facts.len()
        invariant
            i <= c.required_facts.len(),
            retained <= i,
            retained == retained_count(c.follow_up_text@, c.required_facts@.take(i as int)),
        decreases c.required_facts.len() - i,
    {
        proof {
            assert(c.required_facts@.take(i + 1).drop_last() =~= c.required_facts@.take(i as int));
        }
        if fact_is_retained(c.follow_up_text.as_str(), c.required_facts[i].as_str()) {
            retained = retained + 1;
        }
        i = i + 1;
    }
    proof {
        assert(c.required_facts@.take(i as int) =~= c.required_facts@);
    }
    let text = chars_of(c.follow_up_text.as_str());
    let mut leaks: usize = 0;
    let mut j: usize = 0;
    while j < c.secret_markers.len()
        invariant
            j <= c.secret_markers.len(),
            leaks <= j,
            text@ == c.follow_up_text@,
            leaks == leak_count(c.follow_up_text@, c.secret_markers@.take(j as int)),
        decreases c.secret_markers.len() - j,
    {
        proof {
            assert(c.secret_markers@.take(j + 1).drop_last() =~= c.secret_markers@.take(j as int));
        }
        if contains_lit(&text, c.secret_markers[j].as_str()) {
            leaks = leaks + 1;
        }
        j = j + 1;
    }
    proof {
        assert(c.secret_markers@.take(j as int) =~= c.secret_markers@);
    }
    let error_code = if !c.compaction_completed {
        Some("compaction_incomplete")
    } else if c.failure_recovery_required && !c.recovery_completed {
        Some("recovery_incomplete")
    } else if retained != c.required_facts.len() {
        Some("required_fact_lost")
    } else {
        None
    };
    CaseOutcome { retained_required_facts: retained, secret_leaks: leaks, output_chars: text.len(), error_code }
}


/// What a compaction summary reads of a run.
#[derive(Debug, Clone, Copy, PartialEq, Eq, Structural)]
pub struct CompactionRunFacts {
    pub has_error: bool,
    pub secret_leaks: usize,
    pub required_fact_count: usize,
    pub retained_required_facts: usize,
    pub compaction_completed: bool,
    pub duration_ms: u64,
    pub output_chars: usize,
    pub failure_recovery_required: bool,
    pub recovery_completed: bool,
    pub tool_history_items: usize,
    pub tool_failure_count: usize,
    pub interrupted_turns: usize,
    pub recovery_turns: usize,
    pub post_compaction_usage: Option<TokenUsageSnapshot>,
    pub savings: Option<TokenSavingsCounts>,
    pub jev_cost_status: CostStatus,
    pub codex_cost_status: CostStatus,
    pub total_cost_status: CostStatus,
}

/// The sum of `f` over the runs.
pub open spec fn run_sum(runs: Seq<CompactionRunFacts>, f: spec_fn(CompactionRunFacts) -> nat) -> nat
    decreases runs.len(),
{
    if runs.len() == 0 {
        0
    } else {
        run_sum(runs.drop_last(), f) + f(runs.last())
    }
}

pub open spec fn run_count_where(runs: Seq<CompactionRunFacts>, p: spec_fn(CompactionRunFacts) -> bool) -> nat
    decreases runs.len(),
{
    if runs.len() == 0 {
        0
    } else {
        run_count_where(runs.drop_last(), p) + if p(runs.last()) { 1nat } else { 0nat }
    }
}

pub open spec fn run_values(runs: Seq<CompactionRunFacts>, f: spec_fn(CompactionRunFacts) -> Option<u64>) -> Seq<u64>
    decreases runs.len(),
{
    if runs.len() == 0 {
        seq![]
    } else {
        let v = run_values(runs.drop_last(), f);
        match f(runs.last()) { Some(x) => v.push(x), None => v }
    }
}

/// A run passes when it has no error, leaked nothing and kept every required fact.
pub open spec fn run_passed() -> spec_fn(CompactionRunFacts) -> bool {
    |r: CompactionRunFacts| !r.has_error && r.secret_leaks == 0 && r.retained_required_facts == r.required_fact_count
}

/// The quantities a compaction summary adds up, by number: 0 required facts, 1 retained
/// facts, 2 secret leaks, 3 tool history items, 4 tool failures, 5 interrupted turns,
/// 6 recovery turns, 7..11 post-compaction input, cached input, cache-write input, output
/// and total tokens.
pub open spec fn run_quantity(k: int) -> spec_fn(CompactionRunFacts) -> nat {
    |r: CompactionRunFacts| {
        let u = match r.post_compaction_usage {
            Some(u) => u,
            None => TokenUsageSnapshot { input_tokens: 0, cached_input_tokens: 0, cache_write_input_tokens: 0,
                output_tokens: 0, reasoning_output_tokens: 0, total_tokens: 0 },
        };
        if k == 0 { r.required_fact_count as nat } else if k == 1 { r.retained_required_facts as nat }
        else if k == 2 { r.secret_leaks as nat } else if k == 3 { r.tool_history_items as nat }
        else if k == 4 { r.tool_failure_count as nat } else if k == 5 { r.interrupted_turns as nat }
        else if k == 6 { r.recovery_turns as nat } else if k == 7 { u.input_tokens as nat }
        else if k == 8 { u.cached_input_tokens as nat } else if k == 9 { u.cache_write_input_tokens as nat }
        else if k == 10 { u.output_tokens as nat } else { u.total_tokens as nat }
    }
}

/// Every sum fits its width (`usize` for counts, `u64` for tokens).
pub open spec fn compaction_sums_fit(runs: Seq<CompactionRunFacts>) -> bool {
    &&& forall|k: int| 0 <= k <= 6 ==> run_sum(runs, #[trigger] run_quantity(k)) <= usize::MAX
    &&& forall|k: int| 7 <= k <= 11 ==> run_sum(runs, #[trigger] run_quantity(k)) <= u64::MAX
    &&& runs.len() * 95 <= usize::MAX
}

/// The integer part of a compaction summary. (Rates and cost amounts are derived by the
/// caller.)
#[derive(Debug, Clone)]
pub struct CompactionCounts {
    pub run_count: usize,
    pub passed: usize,
    pub required_facts: usize,
    pub retained_facts: usize,
    pub secret_leaks: usize,
    pub completed_runs: usize,
    pub recovery_required_runs: usize,
    pub recovery_completed_runs: usize,
    pub duration_ms_p50: Option<u64>,
    pub duration_ms_p95: Option<u64>,
    pub output_chars_p50: Option<u64>,
    pub output_chars_p95: Option<u64>,
    pub tool_history_items: usize,
    pub tool_failure_count: usize,
    pub interrupted_turns: usize,
    pub recovery_turns: usize,
    pub usage_measured_runs: usize,
    pub token_savings_measured_runs: usize,
    pub total_saved_tokens: Option<u64>,
    pub total_before_tokens: Option<u64>,
    pub total_input_tokens: u64,
    pub total_cached_input_tokens: u64,
    pub total_cache_write_input_tokens: u64,
    pub total_output_tokens: u64,
    pub total_tokens: u64,
    pub post_compaction_uncached_input_tokens_p50: Option<u64>,
    pub post_compaction_uncached_input_tokens_p95: Option<u64>,
    pub post_compaction_estimated_billable_tokens_p50: Option<u64>,
    pub post_compaction_estimated_billable_tokens_p95: Option<u64>,
    pub cost_status_counts: Vec<(String, usize)>,
}

fn run_sum_exec(runs: &Vec<CompactionRunFacts>, k: u8) -> (res: u128)
    requires
        k <= 11,
    ensures
        res == run_sum(runs@, run_quantity(k as int)),
{
    let ghost f = run_quantity(k as int);
    let mut total: u128 = 0;
    let mut i: usize = 0;
    while i < runs.len()
        invariant
            i <= runs.len(),
            k <= 11,
            f == run_quantity(k as int),
            total == run_sum(runs@.take(i as int), f),
            total <= i * 0xffff_ffff_ffff_ffffu128,
        decreases runs.len() - i,
    {
        proof {
            assert(runs@.take(i + 1).drop_last() =~= runs@.take(i as int));
        }
        let r = runs[i];
        let u = match r.post_compaction_usage {
            Some(u) => u,
            None => TokenUsageSnapshot { input_tokens: 0, cached_input_tokens: 0, cache_write_input_tokens: 0,
                output_tokens: 0, reasoning_output_tokens: 0, total_tokens: 0 },
        };
        let v: u128 = if k == 0 { r.required_fact_count as u128 } else if k == 1 { r.retained_required_facts as u128 }
            else if k == 2 { r.secret_leaks as u128 } else if k == 3 { r.tool_history_items as u128 }
            else if k == 4 { r.tool_failure_count as u128 } else if k == 5 { r.interrupted_turns as u128 }
            else if k == 6 { r.recovery_turns as u128 } else if k == 7 { u.input_tokens as u128 }
            else if k == 8 { u.cached_input_tokens as u128 } else if k == 9 { u.cache_write_input_tokens as u128 }
            else if k == 10 { u.output_tokens as u128 } else { u.total_tokens as u128 };
        proof {
            assert(v == f(runs@[i as int]));
            assert(v <= 0xffff_ffff_ffff_ffffu128);
            assert((i + 1) * 0xffff_ffff_ffff_ffffu128 == i * 0xffff_ffff_ffff_ffffu128 + 0xffff_ffff_ffff_ffffu128) by (nonlinear_arith);
        }
        total = total + v;
        i = i + 1;
    }
    proof {
        assert(runs@.take(i as int) =~= runs@);
    }
    total
}

pub open spec fn run_flag(k: int) -> spec_fn(CompactionRunFacts) -> bool {
    |r: CompactionRunFacts| if k == 0 { !r.has_error && r.secret_leaks == 0 && r.retained_required_facts == r.required_fact_count }
        else if k == 1 { r.compaction_completed } else if k == 2 { r.failure_recovery_required }
        else if k == 3 { r.failure_recovery_required && r.recovery_completed }
        else if k == 4 { r.post_compaction_usage is Some }
        else { r.savings matches Some(s) && s.status == MeasurementStatus::Measured }
}

fn run_count_exec(runs: &Vec<CompactionRunFacts>, k: u8) -> (res: usize)
    requires
        k <= 5,
    ensures
        res == run_count_where(runs@, run_flag(k as int)),
        res <= runs@.len(),
{
    let ghost p = run_flag(k as int);
    let mut c: usize = 0;
    let mut i: usize = 0;
    while i < runs.len()
        invariant
            i <= runs.len(),
            c <= i,
            k <= 5,
            p == run_flag(k as int),
            c == run_count_where(runs@.take(i as int), p),
        decreases runs.len() - i,
    {
        proof {
            assert(runs@.take(i + 1).drop_last() =~= runs@.take(i as int));
        }
        let r = runs[i];
        let hit = if k == 0 { !r.has_error && r.secret_leaks == 0 && r.retained_required_facts == r.required_fact_count }
            else if k == 1 { r.compaction_completed } else if k == 2 { r.failure_recovery_required }
            else if k == 3 { r.failure_recovery_required && r.recovery_completed }
            else if k == 4 { r.post_compaction_usage.is_some() }
            else { match r.savings { Some(s) => s.status == MeasurementStatus::Measured, None => false } };
        proof {
            assert(hit == p(runs@[i as int]));
        }
        if hit {
            c = c + 1;
        }
        i = i + 1;
    }
    proof {
        assert(runs@.take(i as int) =~= runs@);
    }
    c
}

/// The run values a percentile is taken of, by number: 0 duration, 1 output characters,
/// 2 post-compaction uncached input, 3 post-compaction estimated billable tokens; and the
/// measured savings' 4 saved and 5 before-compaction tokens.
pub open spec fn run_value(k: int) -> spec_fn(CompactionRunFacts) -> Option<u64> {
    |r: CompactionRunFacts| if k == 0 { Some(r.duration_ms) } else if k == 1 { Some(r.output_chars as u64) }
        else if k == 2 { match r.post_compaction_usage { Some(u) => Some(u.uncached_input_tokens_spec()), None => None } }
        else if k == 3 { match r.post_compaction_usage {
            Some(u) => Some(if u.uncached_input_tokens_spec() + u.output_tokens <= u64::MAX {
                (u.uncached_input_tokens_spec() + u.output_tokens) as u64 } else { u64::MAX }),
            None => None } }
        else if k == 4 { match r.savings { Some(s) => if s.status == MeasurementStatus::Measured { s.saved_tokens } else { None }, None => None } }
        else { match r.savings { Some(s) => if s.status == MeasurementStatus::Measured { s.before_tokens } else { None }, None => None } }
}

fn run_values_exec(runs: &Vec<CompactionRunFacts>, k: u8) -> (res: Vec<u64>)
    requires
        k <= 5,
    ensures
        res@ == run_values(runs@, run_value(k as int)),
        res@.len() <= runs@.len(),
{
    let ghost f = run_value(k as int);
    let mut v: Vec<u64> = Vec::new();
    let mut i: usize = 0;
    while i < runs.len()
        invariant
            i <= runs.len(),
            k <= 5,
            f == run_value(k as int),
            v@ == run_values(runs@.take(i as int), f),
            v@.len() <= i,
        decreases runs.len() - i,
    {
        proof {
            assert(runs@.take(i + 1).drop_last() =~= runs@.take(i as int));
        }
        let r = runs[i];
        let x: Option<u64> = if k == 0 { Some(r.duration_ms) } else if k == 1 { Some(r.output_chars as u64) }
            else if k == 2 { match r.post_compaction_usage { Some(u) => Some(u.uncached_input_tokens()), None => None } }
            else if k == 3 { match r.post_compaction_usage { Some(u) => Some(u.estimated_billable_tokens()), None => None } }
            else if k == 4 { match r.savings { Some(s) => if s.status == MeasurementStatus::Measured { s.saved_tokens } else { None }, None => None } }
            else { match r.savings { Some(s) => if s.status == MeasurementStatus::Measured { s.before_tokens } else { None }, None => None } };
        proof {
            assert(x == f(runs@[i as int]));
        }
        match x {
            Some(val) => v.push(val),
            None => {},
        }
        i = i + 1;
    }
    proof {
        assert(runs@.take(i as int) =~= runs@);
    }
    v
}

fn checked_sum(v: &Vec<u64>) -> (res: Option<u64>)
    ensures
        res == checked_total(v@),
{
    let mut total: u128 = 0;
    let mut i: usize = 0;
    while i < v.len()
        invariant
            i <= v.len(),
            total == seq_sum(v@.take(i as int)),
            total <= i * 0xffff_ffff_ffff_ffffu128,
        decreases v.len() - i,
    {
        proof {
            assert(v@.take(i + 1).drop_last() =~= v@.take(i as int));
            assert((i + 1) * 0xffff_ffff_ffff_ffffu128 == i * 0xffff_ffff_ffff_ffffu128 + 0xffff_ffff_ffff_ffffu128) by (nonlinear_arith);
        }
        total = total + v[i] as u128;
        i = i + 1;
    }
    proof {
        assert(v@.take(i as int) =~= v@);
    }
    if total <= 0xffff_ffff_ffff_ffffu128 { Some(total as u64) } else { None }
}

pub open spec fn run_cost_is(part: int, st: CostStatus) -> spec_fn(CompactionRunFacts) -> bool {
    |r: CompactionRunFacts| (if part == 0 { r.jev_cost_status } else if part == 1 { r.codex_cost_status } else { r.total_cost_status }) == st
}

fn run_cost_count(runs: &Vec<CompactionRunFacts>, part: u8, st: CostStatus) -> (res: usize)
    requires
        part <= 2,
    ensures
        res == run_count_where(runs@, run_cost_is(part as int, st)),
{
    let ghost p = run_cost_is(part as int, st);
    let mut c: usize = 0;
    let mut i: usize = 0;
    while i < runs.len()
        invariant
            i <= runs.len(),
            c <= i,
            part <= 2,
            p == run_cost_is(part as int, st),
            c == run_count_where(runs@.take(i as int), p),
        decreases runs.len() - i,
    {
        proof {
            assert(runs@.take(i + 1).drop_last() =~= runs@.take(i as int));
        }
        let r = runs[i];
        let s = if part == 0 { r.jev_cost_status } else if part == 1 { r.codex_cost_status } else { r.total_cost_status };
        if s == st {
            c = c + 1;
        }
        i = i + 1;
    }
    proof {
        assert(runs@.take(i as int) =~= runs@);
    }
    c
}

/// The integer summary of compaction runs.
pub fn summarize_compaction_runs(runs: &Vec<CompactionRunFacts>) -> (res: CompactionCounts)
    requires
        compaction_sums_fit(runs@),
    ensures
        ({
            let rs = runs@;
            let dur = run_values(rs, run_value(0));
            let out = run_values(rs, run_value(1));
            let unc = run_values(rs, run_value(2));
            let bill = run_values(rs, run_value(3));
            let measured = run_count_where(rs, run_flag(5));
            &&& res.run_count == rs.len()
            &&& res.passed == run_count_where(rs, run_flag(0))
            &&& res.completed_runs == run_count_where(rs, run_flag(1))
            &&& res.recovery_required_runs == run_count_where(rs, run_flag(2))
            &&& res.recovery_completed_runs == run_count_where(rs, run_flag(3))
            &&& res.usage_measured_runs == run_count_where(rs, run_flag(4))
            &&& res.token_savings_measured_runs == measured
            &&& res.required_facts == run_sum(rs, run_quantity(0))
            &&& res.retained_facts == run_sum(rs, run_quantity(1))
            &&& res.secret_leaks == run_sum(rs, run_quantity(2))
            &&& res.tool_history_items == run_sum(rs, run_quantity(3))
            &&& res.tool_failure_count == run_sum(rs, run_quantity(4))
            &&& res.interrupted_turns == run_sum(rs, run_quantity(5))
            &&& res.recovery_turns == run_sum(rs, run_quantity(6))
            &&& res.total_input_tokens == run_sum(rs, run_quantity(7))
            &&& res.total_cached_input_tokens == run_sum(rs, run_quantity(8))
            &&& res.total_cache_write_input_tokens == run_sum(rs, run_quantity(9))
            &&& res.total_output_tokens == run_sum(rs, run_quantity(10))
            &&& res.total_tokens == run_sum(rs, run_quantity(11))
            &&& res.duration_ms_p50 == spec_percentile(dur, 50)
            &&& res.duration_ms_p95 == spec_percentile(dur, 95)
            &&& res.output_chars_p50 == spec_percentile(out, 50)
            &&& res.output_chars_p95 == spec_percentile(out, 95)
            &&& res.post_compaction_uncached_input_tokens_p50 == spec_percentile(unc, 50)
            &&& res.post_compaction_uncached_input_tokens_p95 == spec_percentile(unc, 95)
            &&& res.post_compaction_estimated_billable_tokens_p50 == spec_percentile(bill, 50)
            &&& res.post_compaction_estimated_billable_tokens_p95 == spec_percentile(bill, 95)
            &&& res.total_saved_tokens == (if measured > 0 { checked_total(run_values(rs, run_value(4))) } else { None })
            &&& res.total_before_tokens == (if measured > 0 { checked_total(run_values(rs, run_value(5))) } else { None })
            &&& table_view(res.cost_status_counts@) == nonzero_table(cost_keys(),
                Seq::new(9, |i: int| run_count_where(rs, run_cost_is(cost_key_meaning(i).0, cost_key_meaning(i).1))))
        }),
{
    proof {
        assert(run_sum(runs@, run_quantity(0)) <= usize::MAX);
        assert(run_sum(runs@, run_quantity(1)) <= usize::MAX);
        assert(run_sum(runs@, run_quantity(2)) <= usize::MAX);
        assert(run_sum(runs@, run_quantity(3)) <= usize::MAX);
        assert(run_sum(runs@, run_quantity(4)) <= usize::MAX);
        assert(run_sum(runs@, run_quantity(5)) <= usize::MAX);
        assert(run_sum(runs@, run_quantity(6)) <= usize::MAX);
        assert(run_sum(runs@, run_quantity(7)) <= u64::MAX);
        assert(run_sum(runs@, run_quantity(8)) <= u64::MAX);
        assert(run_sum(runs@, run_quantity(9)) <= u64::MAX);
        assert(run_sum(runs@, run_quantity(10)) <= u64::MAX);
        assert(run_sum(runs@, run_quantity(11)) <= u64::MAX);
    }
    let dur = run_values_exec(runs, 0);
    let out = run_values_exec(runs, 1);
    let unc = run_values_exec(runs, 2);
    let bill = run_values_exec(runs, 3);
    let measured = run_count_exec(runs, 5);
    let (saved, before) = if measured > 0 {
        let s = run_values_exec(runs, 4);
        let b = run_values_exec(runs, 5);
        (checked_sum(&s), checked_sum(&b))
    } else {
        (None, None)
    };
    let ckeys: Vec<&'static str> = vec!["codex:available", "codex:unavailable", "codex:unknown", "jev:available",
        "jev:unavailable", "jev:unknown", "total:available", "total:unavailable", "total:unknown"];
    let mut ccounts: Vec<usize> = Vec::new();
    let mut j: usize = 0;
    while j < 9
        invariant
            j <= 9,
            ccounts@.len() == j,
            forall|k: int| 0 <= k < j ==> #[trigger] ccounts@[k] == run_count_where(runs@, run_cost_is(cost_key_meaning(k).0, cost_key_meaning(k).1)),
        decreases 9 - j,
    {
        let part: u8 = if j < 3 { 1 } else if j < 6 { 0 } else { 2 };
        let st = if j % 3 == 0 { CostStatus::Available } else if j % 3 == 1 { CostStatus::Unavailable } else { CostStatus::Unknown };
        ccounts.push(run_cost_count(runs, part, st));
        j = j + 1;
    }
    proof {
        assert(ckeys@.map_values(|l: &'static str| l@) =~= cost_keys());
        assert(ccounts@.map_values(|c: usize| c as nat) =~= Seq::new(9, |i: int| run_count_where(runs@, run_cost_is(cost_key_meaning(i).0, cost_key_meaning(i).1))));
    }
    let cost_status_counts = nonzero_table_exec(&ckeys, &ccounts);
    CompactionCounts {
        run_count: runs.len(),
        passed: run_count_exec(runs, 0),
        required_facts: run_sum_exec(runs, 0) as usize,
        retained_facts: run_sum_exec(runs, 1) as usize,
        secret_leaks: run_sum_exec(runs, 2) as usize,
        completed_runs: run_count_exec(runs, 1),
        recovery_required_runs: run_count_exec(runs, 2),
        recovery_completed_runs: run_count_exec(runs, 3),
        duration_ms_p50: percentile(dur.as_slice(), 50),
        duration_ms_p95: percentile(dur.as_slice(), 95),
        output_chars_p50: percentile(out.as_slice(), 50),
        output_chars_p95: percentile(out.as_slice(), 95),
        tool_history_items: run_sum_exec(runs, 3) as usize,
        tool_failure_count: run_sum_exec(runs, 4) as usize,
        interrupted_turns: run_sum_exec(runs, 5) as usize,
        recovery_turns: run_sum_exec(runs, 6) as usize,
        usage_measured_runs: run_count_exec(runs, 4),
        token_savings_measured_runs: measured,
        total_saved_tokens: saved,
        total_before_tokens: before,
        total_input_tokens: run_sum_exec(runs, 7) as u64,
        total_cached_input_tokens: run_sum_exec(runs, 8) as u64,
        total_cache_write_input_tokens: run_sum_exec(runs, 9) as u64,
        total_output_tokens: run_sum_exec(runs, 10) as u64,
        total_tokens: run_sum_exec(runs, 11) as u64,
        post_compaction_uncached_input_tokens_p50: percentile(unc.as_slice(), 50),
        post_compaction_uncached_input_tokens_p95: percentile(unc.as_slice(), 95),
        post_compaction_estimated_billable_tokens_p50: percentile(bill.as_slice(), 50),
        post_compaction_estimated_billable_tokens_p95: percentile(bill.as_slice(), 95),
        cost_status_counts,
    }
}

// ---------------------------------------------------------------------------------------
// Laws of the correlation report
// ---------------------------------------------------------------------------------------

/// The sum of `f` over the items.
pub open spec fn items_sum(items: Seq<usize>, f: spec_fn(usize) -> nat) -> nat
    decreases items.len(),
{
    if items.len() == 0 {
        0
    } else {
        items_sum(items.drop_last(), f) + f(items.last())
    }
}

/// The sum of the counts.
pub open spec fn counts_sum(cs: Seq<nat>) -> nat
    decreases cs.len(),
{
    if cs.len() == 0 {
        0
    } else {
        counts_sum(cs.drop_last()) + cs.last()
    }
}

proof fn lemma_items_sum_insert(l: Seq<usize>, p: int, x: usize, f: spec_fn(usize) -> nat)
    requires
        0 <= p <= l.len(),
    ensures
        items_sum(l.insert(p, x), f) == items_sum(l, f) + f(x),
    decreases l.len(),
{
    if p == l.len() {
        assert(l.insert(p, x) =~= l.push(x));
        assert(l.push(x).drop_last() =~= l);
    } else {
        let d = l.drop_last();
        lemma_items_sum_insert(d, p, x, f);
        assert(l.insert(p, x).drop_last() =~= d.insert(p, x));
        assert(l.insert(p, x).last() == l.last());
    }
}

proof fn lemma_ins_pos_facts(before: spec_fn(int, int) -> bool, l: Seq<usize>, x: usize)
    ensures
        0 <= ins_pos(before, l, x) <= l.len(),
        forall|m: int| 0 <= m < ins_pos(before, l, x) ==> !before(x as int, #[trigger] l[m] as int),
        ins_pos(before, l, x) < l.len() ==> before(x as int, l[ins_pos(before, l, x)] as int),
    decreases l.len(),
{
    if l.len() > 0 && !before(x as int, l[0] as int) {
        let t = l.drop_first();
        lemma_ins_pos_facts(before, t, x);
        assert forall|m: int| 0 <= m < ins_pos(before, l, x) implies !before(x as int, #[trigger] l[m] as int) by {
            if m > 0 {
                assert(l[m] == t[m - 1]);
            }
        }
        if ins_pos(before, l, x) < l.len() {
            assert(l[ins_pos(before, l, x)] == t[ins_pos(before, t, x)]);
        }
    }
}

proof fn lemma_items_sum_ins_sorted(before: spec_fn(int, int) -> bool, items: Seq<usize>, f: spec_fn(usize) -> nat)
    ensures
        items_sum(ins_sorted(before, items), f) == items_sum(items, f),
    decreases items.len(),
{
    if items.len() > 0 {
        let d = items.drop_last();
        lemma_items_sum_ins_sorted(before, d, f);
        let l = ins_sorted(before, d);
        lemma_ins_pos_facts(before, l, items.last());
        lemma_items_sum_insert(l, ins_pos(before, l, items.last()), items.last(), f);
    }
}

/// Insertion under `before` keeps the items ordered by weight, heaviest first, when `before`
/// only puts an item first that weighs at least as much.
proof fn lemma_ins_sorted_by_weight(before: spec_fn(int, int) -> bool, w: spec_fn(int) -> int, items: Seq<usize>)
    requires
        forall|a: int, b: int| #[trigger] before(a, b) ==> w(a) >= w(b),
        forall|a: int, b: int| !#[trigger] before(a, b) ==> w(a) <= w(b),
    ensures
        forall|k: int, l: int| 0 <= k < l < ins_sorted(before, items).len()
            ==> w(#[trigger] ins_sorted(before, items)[k] as int) >= w(#[trigger] ins_sorted(before, items)[l] as int),
    decreases items.len(),
{
    if items.len() > 0 {
        let d = items.drop_last();
        let x = items.last();
        lemma_ins_sorted_by_weight(before, w, d);
        let l = ins_sorted(before, d);
        lemma_ins_pos_facts(before, l, x);
        let p = ins_pos(before, l, x);
        let out = l.insert(p, x);
        assert(ins_sorted(before, items) == out);
        assert forall|k: int, m: int| 0 <= k < m < out.len() implies w(#[trigger] out[k] as int) >= w(#[trigger] out[m] as int) by {
            if p < l.len() {
                assert(before(x as int, l[p] as int));
            }
            if k < p {
                assert(out[k] == l[k]);
                assert(!before(x as int, l[k] as int));
                if m < p {
                    assert(out[m] == l[m]);
                } else if m == p {
                    assert(out[m] == x);
                } else {
                    assert(out[m] == l[m - 1]);
                    if k < m - 1 {
                        assert(w(l[k] as int) >= w(l[m - 1] as int));
                    }
                }
            } else if k == p {
                assert(out[k] == x);
                assert(out[m] == l[m - 1]);
                if m - 1 > p {
                    assert(w(l[p] as int) >= w(l[m - 1] as int));
                }
            } else {
                assert(out[k] == l[k - 1]);
                assert(out[m] == l[m - 1]);
            }
        }
    }
}

/// Belonging to a group is an equivalence: records are grouped by an equal key.
proof fn lemma_same_group_equivalence(rs: Seq<HookRecordFacts>, a: int, b: int, c: int)
    ensures
        same_group(rs, a, a),
        same_group(rs, a, b) == same_group(rs, b, a),
        same_group(rs, a, b) && same_group(rs, b, c) ==> same_group(rs, a, c),
{
}

/// How many of the items are in the group of record `i`.
pub open spec fn heads_matching(rs: Seq<HookRecordFacts>, hs: Seq<usize>, i: int) -> nat
    decreases hs.len(),
{
    if hs.len() == 0 {
        0
    } else {
        heads_matching(rs, hs.drop_last(), i) + if same_group(rs, i, hs.last() as int) { 1nat } else { 0nat }
    }
}

pub open spec fn group_count_at(rs: Seq<HookRecordFacts>, m: nat) -> spec_fn(usize) -> nat {
    |h: usize| group_count(rs, h as int, m)
}

proof fn lemma_sum_step(rs: Seq<HookRecordFacts>, hs: Seq<usize>, m: nat)
    ensures
        items_sum(hs, group_count_at(rs, m + 1)) == items_sum(hs, group_count_at(rs, m)) + heads_matching(rs, hs, m as int),
    decreases hs.len(),
{
    if hs.len() > 0 {
        lemma_sum_step(rs, hs.drop_last(), m);
        lemma_same_group_equivalence(rs, m as int, hs.last() as int, 0);
    }
}

proof fn lemma_matching_none(rs: Seq<HookRecordFacts>, hs: Seq<usize>, i: int)
    requires
        forall|k: int| 0 <= k < hs.len() ==> !same_group(rs, i, #[trigger] hs[k] as int),
    ensures
        heads_matching(rs, hs, i) == 0,
    decreases hs.len(),
{
    if hs.len() > 0 {
        let d = hs.drop_last();
        assert forall|k: int| 0 <= k < d.len() implies !same_group(rs, i, #[trigger] d[k] as int) by {
            assert(d[k] == hs[k]);
        }
        lemma_matching_none(rs, d, i);
        assert(hs.last() == hs[hs.len() - 1]);
    }
}

proof fn lemma_matching_one(rs: Seq<HookRecordFacts>, hs: Seq<usize>, i: int, k0: int)
    requires
        0 <= k0 < hs.len(),
        same_group(rs, i, hs[k0] as int),
        forall|k: int| 0 <= k < hs.len() && k != k0 ==> !same_group(rs, i, #[trigger] hs[k] as int),
    ensures
        heads_matching(rs, hs, i) == 1,
    decreases hs.len(),
{
    let d = hs.drop_last();
    if k0 == hs.len() - 1 {
        assert forall|k: int| 0 <= k < d.len() implies !same_group(rs, i, #[trigger] d[k] as int) by {
            assert(d[k] == hs[k]);
        }
        lemma_matching_none(rs, d, i);
    } else {
        assert forall|k: int| 0 <= k < d.len() && k != k0 implies !same_group(rs, i, #[trigger] d[k] as int) by {
            assert(d[k] == hs[k]);
        }
        assert(d[k0] == hs[k0]);
        lemma_matching_one(rs, d, i, k0);
        assert(hs.last() == hs[hs.len() - 1]);
    }
}

/// The heads of the first `m` records: each below `m`, in increasing order, the first of
/// its group, and every record among the first `m` is in the group of one of them.
#[verifier::spinoff_prover]
#[verifier::rlimit(50)]
proof fn lemma_heads_props(rs: Seq<HookRecordFacts>, m: nat)
    requires
        m <= usize::MAX,
    ensures
        forall|k: int| 0 <= k < group_heads(rs, m).len() ==> (#[trigger] group_heads(rs, m)[k]) < m,
        forall|k: int, l: int| 0 <= k < l < group_heads(rs, m).len() ==> (#[trigger] group_heads(rs, m)[k]) < (#[trigger] group_heads(rs, m)[l]),
        forall|k: int, j: int| #![trigger same_group(rs, j, group_heads(rs, m)[k] as int)]
            0 <= k < group_heads(rs, m).len() && 0 <= j < group_heads(rs, m)[k]
            ==> !same_group(rs, j, group_heads(rs, m)[k] as int),
        forall|j: int| #![trigger rs[j]] 0 <= j < m ==> exists|k: int| 0 <= k < group_heads(rs, m).len() && same_group(rs, j, #[trigger] group_heads(rs, m)[k] as int),
    decreases m,
{
    if m > 0 {
        let p = (m - 1) as nat;
        lemma_heads_props(rs, p);
        let h = group_heads(rs, p);
        let fresh = forall|j: int| #![trigger rs[j]] 0 <= j < m - 1 ==> !same_group(rs, j, m - 1);
        if fresh {
            let h2 = h.push((m - 1) as usize);
            assert(group_heads(rs, m) == h2);
            assert forall|k: int, j: int| #![trigger same_group(rs, j, h2[k] as int)] 0 <= k < h2.len() && 0 <= j < h2[k]
                implies !same_group(rs, j, h2[k] as int) by {
                if k < h.len() {
                    assert(h2[k] == h[k]);
                } else {
                    assert(h2[k] == m - 1);
                    assert(rs[j] == rs[j]);
                }
            }
            assert forall|j: int| #![trigger rs[j]] 0 <= j < m implies exists|k: int| 0 <= k < h2.len() && same_group(rs, j, #[trigger] h2[k] as int) by {
                if j < m - 1 {
                    let k = choose|k: int| 0 <= k < h.len() && same_group(rs, j, #[trigger] h[k] as int);
                    assert(h2[k] == h[k]);
                } else {
                    lemma_same_group_equivalence(rs, j, j, j);
                    assert(h2[h.len() as int] == m - 1);
                }
            }
            assert forall|k: int, l: int| 0 <= k < l < h2.len() implies (#[trigger] h2[k]) < (#[trigger] h2[l]) by {
                assert(h2[k] == h[k]);
                if l < h.len() {
                    assert(h2[l] == h[l]);
                }
            }
            assert forall|k: int| 0 <= k < h2.len() implies (#[trigger] h2[k]) < m by {
                if k < h.len() {
                    assert(h2[k] == h[k]);
                }
            }
        } else {
            assert(group_heads(rs, m) == h);
            assert forall|j: int| #![trigger rs[j]] 0 <= j < m implies exists|k: int| 0 <= k < h.len() && same_group(rs, j, #[trigger] h[k] as int) by {
                if j == m - 1 {
                    let j0 = choose|j0: int| 0 <= j0 < m - 1 && #[trigger] same_group(rs, j0, m - 1);
                    assert(rs[j0] == rs[j0]);
                    let k = choose|k: int| 0 <= k < h.len() && same_group(rs, j0, #[trigger] h[k] as int);
                    lemma_same_group_equivalence(rs, j, j0, h[k] as int);
                    lemma_same_group_equivalence(rs, j0, j, h[k] as int);
                }
            }
        }
    }
}

/// The groups' counts among the first `m` records add up to `m`.
#[verifier::spinoff_prover]
#[verifier::rlimit(50)]
proof fn lemma_heads_count_sum(rs: Seq<HookRecordFacts>, m: nat)
    requires
        m <= usize::MAX,
    ensures
        items_sum(group_heads(rs, m), group_count_at(rs, m)) == m,
    decreases m,
{
    if m > 0 {
        let p = (m - 1) as nat;
        lemma_heads_count_sum(rs, p);
        lemma_heads_props(rs, p);
        let h = group_heads(rs, p);
        lemma_sum_step(rs, h, p);
        let i = (m - 1) as int;
        let fresh = forall|j: int| #![trigger rs[j]] 0 <= j < m - 1 ==> !same_group(rs, j, m - 1);
        if fresh {
            assert forall|k: int| 0 <= k < h.len() implies !same_group(rs, i, #[trigger] h[k] as int) by {
                assert(rs[h[k] as int] == rs[h[k] as int]);
                lemma_same_group_equivalence(rs, i, h[k] as int, 0);
            }
            lemma_matching_none(rs, h, i);
            let h2 = h.push(i as usize);
            assert(group_heads(rs, m) == h2);
            assert(h2.drop_last() =~= h);
            assert(group_count(rs, i, p) == 0) by {
                lemma_group_count_none_before(rs, i, p);
            }
            lemma_same_group_equivalence(rs, i, i, i);
        } else {
            let j0 = choose|j0: int| 0 <= j0 < m - 1 && #[trigger] same_group(rs, j0, m - 1);
            assert(rs[j0] == rs[j0]);
            let k0 = choose|k: int| 0 <= k < h.len() && same_group(rs, j0, #[trigger] h[k] as int);
            lemma_same_group_equivalence(rs, i, j0, h[k0] as int);
            lemma_same_group_equivalence(rs, j0, i, h[k0] as int);
            assert forall|k: int| 0 <= k < h.len() && k != k0 implies !same_group(rs, i, #[trigger] h[k] as int) by {
                if same_group(rs, i, h[k] as int) {
                    lemma_same_group_equivalence(rs, h[k] as int, i, h[k0] as int);
                    lemma_same_group_equivalence(rs, h[k0] as int, h[k] as int, i);
                    if k < k0 {
                        assert(!same_group(rs, h[k] as int, h[k0] as int));
                    } else {
                        assert(!same_group(rs, h[k0] as int, h[k] as int));
                    }
                }
            }
            lemma_matching_one(rs, h, i, k0);
            assert(group_heads(rs, m) == h);
        }
    }
}

proof fn lemma_group_count_none_before(rs: Seq<HookRecordFacts>, i: int, n: nat)
    requires
        n <= i,
        forall|j: int| #![trigger rs[j]] 0 <= j < i ==> !same_group(rs, j, i),
    ensures
        group_count(rs, i, n) == 0,
    decreases n,
{
    if n > 0 {
        assert(rs[n - 1] == rs[n - 1]);
        lemma_group_count_none_before(rs, i, (n - 1) as nat);
    }
}

proof fn lemma_group_count_at_least_own(rs: Seq<HookRecordFacts>, i: int, n: nat)
    requires
        0 <= i < n,
    ensures
        group_count(rs, i, n) >= 1,
    decreases n,
{
    if n - 1 > i {
        lemma_group_count_at_least_own(rs, i, (n - 1) as nat);
    } else {
        lemma_same_group_equivalence(rs, i, i, i);
    }
}

proof fn lemma_unkeyed_alone(rs: Seq<HookRecordFacts>, i: int, n: nat)
    requires
        0 <= i,
        !has_identity(rs[i]),
    ensures
        group_count(rs, i, n) == (if n > i { 1nat } else { 0nat }),
    decreases n,
{
    if n > 0 {
        lemma_unkeyed_alone(rs, i, (n - 1) as nat);
        lemma_same_group_equivalence(rs, i, i, i);
    }
}

proof fn lemma_duplicate_records_sum(cs: Seq<nat>)
    requires
        forall|k: int| 0 <= k < cs.len() ==> #[trigger] cs[k] >= 1,
    ensures
        duplicate_records(cs) + cs.len() == counts_sum(cs),
    decreases cs.len(),
{
    if cs.len() > 0 {
        let d = cs.drop_last();
        assert forall|k: int| 0 <= k < d.len() implies #[trigger] d[k] >= 1 by {
            assert(d[k] == cs[k]);
        }
        lemma_duplicate_records_sum(d);
        assert(cs.last() == cs[cs.len() - 1]);
    }
}

proof fn lemma_counts_sum_is_items_sum(rs: Seq<HookRecordFacts>, og: Seq<usize>, n: nat)
    ensures
        counts_sum(Seq::new(og.len(), |k: int| group_count(rs, og[k] as int, n))) == items_sum(og, group_count_at(rs, n)),
    decreases og.len(),
{
    if og.len() > 0 {
        let d = og.drop_last();
        lemma_counts_sum_is_items_sum(rs, d, n);
        assert(Seq::new(og.len(), |k: int| group_count(rs, og[k] as int, n)).drop_last()
            =~= Seq::new(d.len(), |k: int| group_count(rs, d[k] as int, n)));
    }
}

/// The correlation report's groups partition the records: their counts add up to the number
/// of records; each group holds at least one record, so the records beyond the first of
/// their group are the records less the groups; groups come largest first; and a record
/// without any identity is a group of its own.
pub proof fn lemma_correlation_groups_partition_records(rs: Seq<HookRecordFacts>)
    requires
        rs.len() <= usize::MAX,
    ensures
        counts_sum(group_counts_seq(rs)) == rs.len(),
        forall|k: int| 0 <= k < group_counts_seq(rs).len() ==> #[trigger] group_counts_seq(rs)[k] >= 1,
        duplicate_records(group_counts_seq(rs)) == rs.len() - group_counts_seq(rs).len(),
        forall|k: int, l: int| 0 <= k < l < group_counts_seq(rs).len()
            ==> #[trigger] group_counts_seq(rs)[k] >= #[trigger] group_counts_seq(rs)[l],
        forall|i: int| 0 <= i < rs.len() && !has_identity(#[trigger] rs[i]) ==> group_count(rs, i, rs.len()) == 1,
{
    let n = rs.len();
    let heads = group_heads(rs, n);
    let before = group_before(rs);
    let og = ordered_groups(rs);
    let cs = group_counts_seq(rs);
    lemma_heads_count_sum(rs, n);
    lemma_items_sum_ins_sorted(before, heads, group_count_at(rs, n));
    lemma_counts_sum_is_items_sum(rs, og, n);
    assert(cs == Seq::new(og.len(), |k: int| group_count(rs, og[k] as int, n)));
    lemma_heads_props(rs, n);
    lemma_ins_sorted_members(before, heads);
    assert forall|k: int| 0 <= k < cs.len() implies #[trigger] cs[k] >= 1 by {
        assert(heads.contains(og[k]));
        let m = choose|m: int| 0 <= m < heads.len() && heads[m] == og[k];
        assert(heads[m] < n);
        lemma_group_count_at_least_own(rs, og[k] as int, n);
    }
    lemma_duplicate_records_sum(cs);
    let w = |a: int| group_count(rs, a, n) as int;
    assert forall|a: int, b: int| #[trigger] before(a, b) implies w(a) >= w(b) by {}
    assert forall|a: int, b: int| !#[trigger] before(a, b) implies w(a) <= w(b) by {}
    lemma_ins_sorted_by_weight(before, w, heads);
    assert forall|k: int, l: int| 0 <= k < l < cs.len() implies #[trigger] cs[k] >= #[trigger] cs[l] by {
        assert(w(og[k] as int) >= w(og[l] as int));
    }
    assert forall|i: int| 0 <= i < rs.len() && !has_identity(#[trigger] rs[i]) implies group_count(rs, i, rs.len()) == 1 by {
        lemma_unkeyed_alone(rs, i, n);
    }
}


/// Two records have the same event name.
pub open spec fn same_event(rs: Seq<HookRecordFacts>, a: int, b: int) -> bool {
    rs[a].hook_event_name@ == rs[b].hook_event_name@
}

proof fn lemma_same_event_equivalence(rs: Seq<HookRecordFacts>, a: int, b: int, c: int)
    ensures
        same_event(rs, a, a),
        same_event(rs, a, b) == same_event(rs, b, a),
        same_event(rs, a, b) && same_event(rs, b, c) ==> same_event(rs, a, c),
{
}

/// How many of the items have the event of record `i`.
pub open spec fn event_heads_matching(rs: Seq<HookRecordFacts>, hs: Seq<usize>, i: int) -> nat
    decreases hs.len(),
{
    if hs.len() == 0 {
        0
    } else {
        event_heads_matching(rs, hs.drop_last(), i) + if same_event(rs, i, hs.last() as int) { 1nat } else { 0nat }
    }
}

pub open spec fn event_count_at(rs: Seq<HookRecordFacts>, m: nat) -> spec_fn(usize) -> nat {
    |h: usize| event_count(rs, rs[h as int].hook_event_name@, m)
}

proof fn lemma_event_sum_step(rs: Seq<HookRecordFacts>, hs: Seq<usize>, m: nat)
    ensures
        items_sum(hs, event_count_at(rs, m + 1)) == items_sum(hs, event_count_at(rs, m)) + event_heads_matching(rs, hs, m as int),
    decreases hs.len(),
{
    if hs.len() > 0 {
        lemma_event_sum_step(rs, hs.drop_last(), m);
        lemma_same_event_equivalence(rs, m as int, hs.last() as int, 0);
    }
}

proof fn lemma_event_matching_none(rs: Seq<HookRecordFacts>, hs: Seq<usize>, i: int)
    requires
        forall|k: int| 0 <= k < hs.len() ==> !same_event(rs, i, #[trigger] hs[k] as int),
    ensures
        event_heads_matching(rs, hs, i) == 0,
    decreases hs.len(),
{
    if hs.len() > 0 {
        let d = hs.drop_last();
        assert forall|k: int| 0 <= k < d.len() implies !same_event(rs, i, #[trigger] d[k] as int) by {
            assert(d[k] == hs[k]);
        }
        lemma_event_matching_none(rs, d, i);
        assert(hs.last() == hs[hs.len() - 1]);
    }
}

proof fn lemma_event_matching_one(rs: Seq<HookRecordFacts>, hs: Seq<usize>, i: int, k0: int)
    requires
        0 <= k0 < hs.len(),
        same_event(rs, i, hs[k0] as int),
        forall|k: int| 0 <= k < hs.len() && k != k0 ==> !same_event(rs, i, #[trigger] hs[k] as int),
    ensures
        event_heads_matching(rs, hs, i) == 1,
    decreases hs.len(),
{
    let d = hs.drop_last();
    if k0 == hs.len() - 1 {
        assert forall|k: int| 0 <= k < d.len() implies !same_event(rs, i, #[trigger] d[k] as int) by {
            assert(d[k] == hs[k]);
        }
        lemma_event_matching_none(rs, d, i);
    } else {
        assert forall|k: int| 0 <= k < d.len() && k != k0 implies !same_event(rs, i, #[trigger] d[k] as int) by {
            assert(d[k] == hs[k]);
        }
        assert(d[k0] == hs[k0]);
        lemma_event_matching_one(rs, d, i, k0);
        assert(hs.last() == hs[hs.len() - 1]);
    }
}

/// The event heads of the first `m` records: each below `m`, in increasing order, the first
/// with its event, and every record among the first `m` shares its event with one of them.
#[verifier::spinoff_prover]
#[verifier::rlimit(50)]
proof fn lemma_event_heads_props(rs: Seq<HookRecordFacts>, m: nat)
    requires
        m <= usize::MAX,
    ensures
        forall|k: int| 0 <= k < event_heads(rs, m).len() ==> (#[trigger] event_heads(rs, m)[k]) < m,
        forall|k: int, l: int| 0 <= k < l < event_heads(rs, m).len() ==> (#[trigger] event_heads(rs, m)[k]) < (#[trigger] event_heads(rs, m)[l]),
        forall|k: int, j: int| #![trigger same_event(rs, j, event_heads(rs, m)[k] as int)]
            0 <= k < event_heads(rs, m).len() && 0 <= j < event_heads(rs, m)[k]
            ==> !same_event(rs, j, event_heads(rs, m)[k] as int),
        forall|j: int| #![trigger rs[j]] 0 <= j < m ==> exists|k: int| 0 <= k < event_heads(rs, m).len() && same_event(rs, j, #[trigger] event_heads(rs, m)[k] as int),
    decreases m,
{
    if m > 0 {
        let p = (m - 1) as nat;
        lemma_event_heads_props(rs, p);
        let h = event_heads(rs, p);
        let fresh = forall|j: int| #![trigger rs[j]] 0 <= j < m - 1 ==> !same_event(rs, j, m - 1);
        if fresh {
            let h2 = h.push((m - 1) as usize);
            assert(event_heads(rs, m) == h2);
            assert forall|k: int, j: int| #![trigger same_event(rs, j, h2[k] as int)] 0 <= k < h2.len() && 0 <= j < h2[k]
                implies !same_event(rs, j, h2[k] as int) by {
                if k < h.len() {
                    assert(h2[k] == h[k]);
                } else {
                    assert(h2[k] == m - 1);
                    assert(rs[j] == rs[j]);
                }
            }
            assert forall|j: int| #![trigger rs[j]] 0 <= j < m implies exists|k: int| 0 <= k < h2.len() && same_event(rs, j, #[trigger] h2[k] as int) by {
                if j < m - 1 {
                    let k = choose|k: int| 0 <= k < h.len() && same_event(rs, j, #[trigger] h[k] as int);
                    assert(h2[k] == h[k]);
                } else {
                    lemma_same_event_equivalence(rs, j, j, j);
                    assert(h2[h.len() as int] == m - 1);
                }
            }
            assert forall|k: int, l: int| 0 <= k < l < h2.len() implies (#[trigger] h2[k]) < (#[trigger] h2[l]) by {
                assert(h2[k] == h[k]);
                if l < h.len() {
                    assert(h2[l] == h[l]);
                }
            }
            assert forall|k: int| 0 <= k < h2.len() implies (#[trigger] h2[k]) < m by {
                if k < h.len() {
                    assert(h2[k] == h[k]);
                }
            }
        } else {
            assert(event_heads(rs, m) == h);
            assert forall|j: int| #![trigger rs[j]] 0 <= j < m implies exists|k: int| 0 <= k < h.len() && same_event(rs, j, #[trigger] h[k] as int) by {
                if j == m - 1 {
                    let j0 = choose|j0: int| 0 <= j0 < m - 1 && #[trigger] same_event(rs, j0, m - 1);
                    assert(rs[j0] == rs[j0]);
                    let k = choose|k: int| 0 <= k < h.len() && same_event(rs, j0, #[trigger] h[k] as int);
                    lemma_same_event_equivalence(rs, j, j0, h[k] as int);
                    lemma_same_event_equivalence(rs, j0, j, h[k] as int);
                }
            }
        }
    }
}

/// The events' counts among the first `m` records add up to `m`.
#[verifier::spinoff_prover]
#[verifier::rlimit(50)]
proof fn lemma_event_heads_count_sum(rs: Seq<HookRecordFacts>, m: nat)
    requires
        m <= usize::MAX,
    ensures
        items_sum(event_heads(rs, m), event_count_at(rs, m)) == m,
    decreases m,
{
    if m > 0 {
        let p = (m - 1) as nat;
        lemma_event_heads_count_sum(rs, p);
        lemma_event_heads_props(rs, p);
        let h = event_heads(rs, p);
        lemma_event_sum_step(rs, h, p);
        let i = (m - 1) as int;
        let fresh = forall|j: int| #![trigger rs[j]] 0 <= j < m - 1 ==> !same_event(rs, j, m - 1);
        if fresh {
            assert forall|k: int| 0 <= k < h.len() implies !same_event(rs, i, #[trigger] h[k] as int) by {
                assert(rs[h[k] as int] == rs[h[k] as int]);
                lemma_same_event_equivalence(rs, i, h[k] as int, 0);
            }
            lemma_event_matching_none(rs, h, i);
            let h2 = h.push(i as usize);
            assert(event_heads(rs, m) == h2);
            assert(h2.drop_last() =~= h);
            assert(event_count(rs, rs[i].hook_event_name@, p) == 0) by {
                lemma_event_count_none_before(rs, i, p);
            }
            lemma_same_event_equivalence(rs, i, i, i);
        } else {
            let j0 = choose|j0: int| 0 <= j0 < m - 1 && #[trigger] same_event(rs, j0, m - 1);
            assert(rs[j0] == rs[j0]);
            let k0 = choose|k: int| 0 <= k < h.len() && same_event(rs, j0, #[trigger] h[k] as int);
            lemma_same_event_equivalence(rs, i, j0, h[k0] as int);
            lemma_same_event_equivalence(rs, j0, i, h[k0] as int);
            assert forall|k: int| 0 <= k < h.len() && k != k0 implies !same_event(rs, i, #[trigger] h[k] as int) by {
                if same_event(rs, i, h[k] as int) {
                    lemma_same_event_equivalence(rs, h[k] as int, i, h[k0] as int);
                    lemma_same_event_equivalence(rs, h[k0] as int, h[k] as int, i);
                    if k < k0 {
                        assert(!same_event(rs, h[k] as int, h[k0] as int));
                    } else {
                        assert(!same_event(rs, h[k0] as int, h[k] as int));
                    }
                }
            }
            lemma_event_matching_one(rs, h, i, k0);
            assert(event_heads(rs, m) == h);
        }
    }
}

proof fn lemma_event_count_none_before(rs: Seq<HookRecordFacts>, i: int, n: nat)
    requires
        n <= i,
        forall|j: int| #![trigger rs[j]] 0 <= j < i ==> !same_event(rs, j, i),
    ensures
        event_count(rs, rs[i].hook_event_name@, n) == 0,
    decreases n,
{
    if n > 0 {
        assert(rs[n - 1] == rs[n - 1]);
        lemma_event_count_none_before(rs, i, (n - 1) as nat);
    }
}

/// The event table counts every record once: its counts add up to the number of records.
pub proof fn lemma_event_table_counts_records(rs: Seq<HookRecordFacts>)
    requires
        rs.len() <= usize::MAX,
    ensures
        ({
            let eo = ins_sorted(name_before(rs), event_heads(rs, rs.len()));
            counts_sum(Seq::new(eo.len(), |k: int| event_count(rs, rs[eo[k] as int].hook_event_name@, rs.len()))) == rs.len()
        }),
{
    let n = rs.len();
    let heads = event_heads(rs, n);
    let eo = ins_sorted(name_before(rs), heads);
    lemma_event_heads_count_sum(rs, n);
    lemma_items_sum_ins_sorted(name_before(rs), heads, event_count_at(rs, n));
    lemma_event_counts_sum_is_items_sum(rs, eo, n);
}

proof fn lemma_event_counts_sum_is_items_sum(rs: Seq<HookRecordFacts>, og: Seq<usize>, n: nat)
    ensures
        counts_sum(Seq::new(og.len(), |k: int| event_count(rs, rs[og[k] as int].hook_event_name@, n))) == items_sum(og, event_count_at(rs, n)),
    decreases og.len(),
{
    if og.len() > 0 {
        let d = og.drop_last();
        lemma_event_counts_sum_is_items_sum(rs, d, n);
        assert(Seq::new(og.len(), |k: int| event_count(rs, rs[og[k] as int].hook_event_name@, n)).drop_last()
            =~= Seq::new(d.len(), |k: int| event_count(rs, rs[d[k] as int].hook_event_name@, n)));
    }
}

} // verus!
