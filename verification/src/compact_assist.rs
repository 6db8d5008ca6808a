//! Compaction assistance: the labels a checkpoint keeps, how much local context it carries,
//! which checkpoints belong to the same compaction, and what a resumed session is told.

use vstd::prelude::*;

use crate::hooks::{savings_from_snapshots, TokenSavingsCounts, TokenUsageSnapshot};
use crate::text::{append_chars, chars_eq, chars_of, eq_lit, join, join_chars, slice_vec, string_from_chars, vviews};

verus! {

pub const CONTEXT_LIMIT: usize = 4_000;

pub const CONTEXT_TRUNCATION_MARKER: &'static str = "\n[jevx context truncated]";

pub open spec fn is_label_char(c: char) -> bool {
    ('a' <= c && c <= 'z') || ('A' <= c && c <= 'Z') || ('0' <= c && c <= '9') || c == '_' || c == '-'
}

pub open spec fn spec_safe_label(v: Seq<char>, max_chars: usize) -> bool {
    v.len() > 0 && v.len() <= max_chars && forall|i: int| 0 <= i < v.len() ==> is_label_char(#[trigger] v[i])
}

pub open spec fn opt_str(v: Option<&str>) -> Option<Seq<char>> {
    match v {
        Some(s) => Some(s@),
        None => None,
    }
}

pub open spec fn opt_string(v: Option<String>) -> Option<Seq<char>> {
    match v {
        Some(s) => Some(s@),
        None => None,
    }
}

/// A trigger or source label is kept when it is non-empty, short and made of ASCII letters,
/// digits, `_` and `-`.
pub fn safe_label(value: Option<&str>, max_chars: usize) -> (res: Option<String>)
    ensures
        opt_string(res) == match opt_str(value) {
            Some(v) => if spec_safe_label(v, max_chars) { Some(v) } else { None },
            None => None,
        },
{
    let v = match value {
        Some(v) => v,
        None => return None,
    };
    let c = chars_of(v);
    if c.len() == 0 || c.len() > max_chars {
        return None;
    }
    let mut i: usize = 0;
    while i < c.len()
        invariant
            i <= c.len(),
            c@ == v@,
            opt_str(value) == Some(v@),
            0 < c.len() <= max_chars,
            forall|k: int| 0 <= k < i ==> is_label_char(#[trigger] c@[k]),
        decreases c.len() - i,
    {
        let ch = c[i];
        if !(('a' <= ch && ch <= 'z') || ('A' <= ch && ch <= 'Z') || ('0' <= ch && ch <= '9') || ch == '_' || ch == '-') {
            assert(!is_label_char(v@[i as int]));
            return None;
        }
        i = i + 1;
    }
    Some(v.to_owned())
}

/// Context cut to `max_chars` characters: kept when it fits; otherwise the leading part
/// followed by the truncation marker, or a lone `…` when even the marker does not fit.
pub open spec fn spec_truncate_context(v: Seq<char>, max_chars: usize) -> Seq<char> {
    let marker = CONTEXT_TRUNCATION_MARKER@;
    if v.len() <= max_chars {
        v
    } else if max_chars == 0 {
        Seq::<char>::empty()
    } else if max_chars < marker.len() {
        "…"@
    } else {
        v.take(max_chars - marker.len()) + marker
    }
}

pub fn truncate_context(value: &str, max_chars: usize) -> (res: String)
    ensures
        res@ == spec_truncate_context(value@, max_chars),
{
    let c = chars_of(value);
    if c.len() <= max_chars {
        return value.to_owned();
    }
    if max_chars == 0 {
        return String::new();
    }
    let marker = chars_of(CONTEXT_TRUNCATION_MARKER);
    if max_chars < marker.len() {
        return "…".to_owned();
    }
    let mut out = slice_vec(&c, 0, max_chars - marker.len());
    append_chars(&mut out, &marker);
    proof {
        assert(c@.subrange(0, max_chars - marker@.len()) =~= value@.take(max_chars - marker@.len()));
    }
    string_from_chars(&out)
}

/// Two optional identities agree when both are absent or both equal.
pub open spec fn spec_same_identity(a: Option<Seq<char>>, b: Option<Seq<char>>) -> bool {
    match (a, b) {
        (Some(x), Some(y)) => x == y,
        (None, None) => true,
        _ => false,
    }
}

pub fn same_optional_identity(a: Option<&str>, b: Option<&str>) -> (res: bool)
    ensures
        res == spec_same_identity(opt_str(a), opt_str(b)),
{
    match (a, b) {
        (Some(x), Some(y)) => {
            let xc = chars_of(x);
            let yc = chars_of(y);
            chars_eq(&xc, &yc)
        },
        (None, None) => true,
        _ => false,
    }
}

/// Two events belong to the same compaction when their turns are known and equal and
/// their correlation identities agree.
pub fn same_known_cycle(left_turn: Option<&str>, left_correlation: Option<&str>, right_turn: Option<&str>, right_correlation: Option<&str>) -> (res: bool)
    ensures
        res == ((opt_str(left_turn) matches Some(l) && opt_str(right_turn) matches Some(r) && l == r)
            && spec_same_identity(opt_str(left_correlation), opt_str(right_correlation))),
{
    let turns = match (left_turn, right_turn) {
        (Some(l), Some(r)) => {
            let lc = chars_of(l);
            let rc = chars_of(r);
            chars_eq(&lc, &rc)
        },
        _ => false,
    };
    turns && same_optional_identity(left_correlation, right_correlation)
}

/// The usage an event carries after the checkpoint of the same compaction was merged in:
/// missing pre-compaction and compaction usage is taken from the checkpoint, and savings
/// are measured when both ends are known.
pub struct MergedUsage {
    pub pre_compaction_usage: Option<TokenUsageSnapshot>,
    pub compaction_usage: Option<TokenUsageSnapshot>,
    pub token_savings: Option<TokenSavingsCounts>,
}

pub fn merge_previous_usage(
    same_cycle: bool,
    pre: Option<TokenUsageSnapshot>,
    compaction: Option<TokenUsageSnapshot>,
    post: Option<TokenUsageSnapshot>,
    savings: Option<TokenSavingsCounts>,
    previous_pre: Option<TokenUsageSnapshot>,
    previous_compaction: Option<TokenUsageSnapshot>,
) -> (res: MergedUsage)
    ensures
        !same_cycle ==> (res.pre_compaction_usage == pre && res.compaction_usage == compaction && res.token_savings == savings),
        same_cycle ==> {
            let p = if pre is Some { pre } else { previous_pre };
            &&& res.pre_compaction_usage == p
            &&& res.compaction_usage == (if compaction is Some { compaction } else { previous_compaction })
            &&& (p is Some && post is Some) ==> res.token_savings == Some(crate::hooks::spec_savings(p, post))
            &&& !(p is Some && post is Some) ==> res.token_savings == savings
        },
{
    if !same_cycle {
        return MergedUsage { pre_compaction_usage: pre, compaction_usage: compaction, token_savings: savings };
    }
    let p = if pre.is_some() { pre } else { previous_pre };
    let c = if compaction.is_some() { compaction } else { previous_compaction };
    let s = if p.is_some() && post.is_some() { Some(savings_from_snapshots(p, post)) } else { savings };
    MergedUsage { pre_compaction_usage: p, compaction_usage: c, token_savings: s }
}

/// What a compacted session is told when it resumes: the restored-checkpoint notice, the
/// checkpoint's event and context facts (or that none was found), then the redacted local
/// context, one line each.
pub open spec fn spec_session_start_lines(checkpoint: Option<(Seq<char>, bool, usize)>, context: Option<Seq<char>>) -> Seq<Seq<char>> {
    let head = seq!["jevx compact checkpoint restored (deterministic prototype)."@,
        "Treat this as supplemental context; verify the current repository and conversation."@];
    let with_checkpoint = match checkpoint {
        Some((event, available, chars)) => head.push("checkpoint event="@ + event + " contextAvailable="@
            + (if available { "true"@ } else { "false"@ }) + " contextChars="@ + crate::evaluation::decimal(chars as nat)),
        None => head.push("checkpoint metadata was not found for this session."@),
    };
    match context {
        Some(c) => with_checkpoint.push("Local compact context manifest (redacted):"@).push(c),
        None => with_checkpoint,
    }
}

pub fn session_start_context(checkpoint: Option<(&str, bool, usize)>, context: Option<&str>) -> (res: String)
    ensures
        res@ == join(spec_session_start_lines(match checkpoint {
            Some((e, a, c)) => Some((e@, a, c)),
            None => None,
        }, opt_str(context)), seq!['\n']),
{
    let mut lines: Vec<Vec<char>> = Vec::new();
    lines.push(chars_of("jevx compact checkpoint restored (deterministic prototype)."));
    lines.push(chars_of("Treat this as supplemental context; verify the current repository and conversation."));
    match checkpoint {
        Some((event, available, chars)) => {
            let mut l = chars_of("checkpoint event=");
            append_chars(&mut l, &chars_of(event));
            append_chars(&mut l, &chars_of(" contextAvailable="));
            append_chars(&mut l, &chars_of(if available { "true" } else { "false" }));
            append_chars(&mut l, &chars_of(" contextChars="));
            append_chars(&mut l, &crate::evaluation::decimal_chars(chars));
            lines.push(l);
        },
        None => lines.push(chars_of("checkpoint metadata was not found for this session.")),
    }
    match context {
        Some(c) => {
            lines.push(chars_of("Local compact context manifest (redacted):"));
            lines.push(chars_of(c));
        },
        None => {},
    }
    let ghost expected = spec_session_start_lines(match checkpoint {
        Some((e, a, c)) => Some((e@, a, c)),
        None => None,
    }, opt_str(context));
    proof {
        assert(vviews(lines@) =~= expected);
    }
    let nl: [char; 1] = ['\n'];
    proof {
        assert(nl@ =~= seq!['\n']);
    }
    let joined = join_chars(&lines, &nl);
    string_from_chars(&joined)
}

/// The first warning of a compaction step is the one reported.
pub fn first_warning(current: Option<&'static str>, next: &'static str) -> (res: &'static str)
    ensures
        res@ == match current {
            Some(c) => c@,
            None => next@,
        },
{
    match current {
        Some(c) => c,
        None => next,
    }
}

/// What can go wrong along a compaction step without stopping it.
#[derive(Debug, Clone, Copy, PartialEq, Eq, Structural)]
pub enum CompactSetback {
    ContextReadFailed,
    DecisionStateFailed,
    DecisionReceiptWriteFailed,
    StorageFailed,
}

pub open spec fn spec_setback_code(s: CompactSetback) -> Seq<char> {
    match s {
        CompactSetback::ContextReadFailed => "compact_context_read_failed"@,
        CompactSetback::DecisionStateFailed => "compact_decision_state_failed"@,
        CompactSetback::DecisionReceiptWriteFailed => "decision_receipt_write_failed"@,
        CompactSetback::StorageFailed => "compact_assist_storage_failed"@,
    }
}

/// The warning a compaction step reports so far, and the error code its record carries.
#[derive(Debug, Clone, Copy, PartialEq, Eq)]
pub struct CompactReport {
    pub warning: Option<&'static str>,
    pub error_code: Option<&'static str>,
}

/// A setback's code becomes the record's error code; the first warning stays the one
/// reported.
pub fn record_setback(report: CompactReport, s: CompactSetback) -> (res: CompactReport)
    ensures
        res.error_code matches Some(c) && c@ == spec_setback_code(s),
        res.warning matches Some(w) && w@ == (match report.warning {
            Some(c) => c@,
            None => spec_setback_code(s),
        }),
{
    let code = match s {
        CompactSetback::ContextReadFailed => "compact_context_read_failed",
        CompactSetback::DecisionStateFailed => "compact_decision_state_failed",
        CompactSetback::DecisionReceiptWriteFailed => "decision_receipt_write_failed",
        CompactSetback::StorageFailed => "compact_assist_storage_failed",
    };
    CompactReport { warning: Some(first_warning(report.warning, code)), error_code: Some(code) }
}

/// What a compaction hook does for its event.
#[derive(Debug, Clone, Copy, PartialEq, Eq)]
pub struct CompactPlan {
    /// Ask the judge about the local context (before compacting, with the opt-in, when there
    /// is context).
    pub consult: bool,
    /// Answer a session resumed after compaction with the latest checkpoint.
    pub restore: bool,
    /// Carry the measurements of the open pre-compaction checkpoint over (after compacting).
    pub carry_previous: bool,
}

pub open spec fn opt_is(v: Option<Seq<char>>, lit: Seq<char>) -> bool {
    v == Some(lit)
}

pub fn compact_plan(event: Option<&str>, source: Option<&str>, allow_context: bool, has_context: bool) -> (res: CompactPlan)
    ensures
        res.consult == (allow_context && has_context && opt_is(opt_str(event), "PreCompact"@)),
        res.restore == (opt_is(opt_str(event), "SessionStart"@) && opt_is(opt_str(source), "compact"@)),
        res.carry_previous == opt_is(opt_str(event), "PostCompact"@),
{
    let (pre, start, post) = match event {
        Some(e) => {
            let c = chars_of(e);
            (eq_lit(&c, "PreCompact"), eq_lit(&c, "SessionStart"), eq_lit(&c, "PostCompact"))
        },
        None => (false, false, false),
    };
    let from_compact = match source {
        Some(s) => {
            let c = chars_of(s);
            eq_lit(&c, "compact")
        },
        None => false,
    };
    CompactPlan { consult: allow_context && has_context && pre, restore: start && from_compact, carry_previous: post }
}

/// The schema version a checkpoint is written with; older supported versions are read and
/// brought up to it.
pub const COMPACT_CHECKPOINT_SCHEMA_VERSION: u8 = 5;

/// A stored checkpoint is readable when its schema version is one this tool wrote.
pub fn checkpoint_schema_supported(version: u8) -> (res: bool)
    ensures
        res == (1 <= version && version <= COMPACT_CHECKPOINT_SCHEMA_VERSION),
{
    1 <= version && version <= COMPACT_CHECKPOINT_SCHEMA_VERSION
}

/// What the checkpoint scan reads of one stored checkpoint: its session, event and cycle
/// identities.
pub struct CheckpointKey {
    pub session: Option<String>,
    pub event: String,
    pub turn: Option<String>,
    pub correlation: Option<String>,
}

pub open spec fn spec_known_cycle(lt: Option<Seq<char>>, lc: Option<Seq<char>>, rt: Option<Seq<char>>, rc: Option<Seq<char>>) -> bool {
    (lt matches Some(l) && rt matches Some(r) && l == r) && spec_same_identity(lc, rc)
}

/// The checkpoint belongs to the compaction identified by `turn` and `correlation`.
pub open spec fn key_in_cycle(k: CheckpointKey, turn: Option<Seq<char>>, correlation: Option<Seq<char>>) -> bool {
    spec_known_cycle(opt_string(k.turn), opt_string(k.correlation), turn, correlation)
}

pub open spec fn key_in_session(k: CheckpointKey, session: Seq<char>) -> bool {
    opt_string(k.session) == Some(session)
}

/// Among the first `n` entries of `pending` (indexes into `keys`), the position of the last
/// one whose checkpoint belongs to the given compaction.
pub open spec fn last_in_cycle(pending: Seq<usize>, keys: Seq<CheckpointKey>, turn: Option<Seq<char>>, correlation: Option<Seq<char>>, n: nat) -> Option<int>
    decreases n,
{
    if n == 0 {
        None
    } else if key_in_cycle(keys[pending[n - 1] as int], turn, correlation) {
        Some(n - 1)
    } else {
        last_in_cycle(pending, keys, turn, correlation, (n - 1) as nat)
    }
}

/// The pre-compaction checkpoints of a session still open after reading `keys` in order,
/// oldest first: each `PreCompact` opens one, and each `PostCompact` closes the latest open
/// one of its compaction.
pub open spec fn open_pre_compactions(keys: Seq<CheckpointKey>, session: Seq<char>) -> Seq<usize>
    decreases keys.len(),
{
    if keys.len() == 0 {
        Seq::empty()
    } else {
        let prev = open_pre_compactions(keys.drop_last(), session);
        let k = keys.last();
        if !key_in_session(k, session) {
            prev
        } else if k.event@ == "PreCompact"@ {
            prev.push((keys.len() - 1) as usize)
        } else if k.event@ == "PostCompact"@ {
            match last_in_cycle(prev, keys.drop_last(), opt_string(k.turn), opt_string(k.correlation), prev.len()) {
                Some(j) => prev.remove(j),
                None => prev,
            }
        } else {
            prev
        }
    }
}

/// The latest open pre-compaction checkpoint of the given compaction, by its index.
pub open spec fn spec_open_pre_compaction(keys: Seq<CheckpointKey>, session: Option<Seq<char>>, turn: Option<Seq<char>>, correlation: Option<Seq<char>>) -> Option<usize> {
    match session {
        None => None,
        Some(s) => {
            let open = open_pre_compactions(keys, s);
            match last_in_cycle(open, keys, turn, correlation, open.len()) {
                Some(j) => Some(open[j]),
                None => None,
            }
        },
    }
}

/// The index of the session's latest `PreCompact` or `PostCompact` checkpoint among the
/// first `n`.
pub open spec fn spec_latest_compaction_event(keys: Seq<CheckpointKey>, session: Seq<char>, n: nat) -> Option<usize>
    decreases n,
{
    if n == 0 {
        None
    } else {
        let k = keys[n - 1];
        if key_in_session(k, session) && (k.event@ == "PreCompact"@ || k.event@ == "PostCompact"@) {
            Some((n - 1) as usize)
        } else {
            spec_latest_compaction_event(keys, session, (n - 1) as nat)
        }
    }
}

fn opt_as_str(o: &Option<String>) -> (res: Option<&str>)
    ensures
        opt_str(res) == opt_string(*o),
{
    match o {
        Some(s) => Some(s.as_str()),
        None => None,
    }
}

fn key_in_cycle_exec(k: &CheckpointKey, turn: Option<&str>, correlation: Option<&str>) -> (res: bool)
    ensures
        res == key_in_cycle(*k, opt_str(turn), opt_str(correlation)),
{
    same_known_cycle(opt_as_str(&k.turn), opt_as_str(&k.correlation), turn, correlation)
}

fn key_in_session_exec(k: &CheckpointKey, session: &str) -> (res: bool)
    ensures
        res == key_in_session(*k, session@),
{
    match &k.session {
        Some(s) => {
            let a = chars_of(s.as_str());
            let b = chars_of(session);
            chars_eq(&a, &b)
        },
        None => false,
    }
}

fn last_in_cycle_exec(pending: &Vec<usize>, keys: &Vec<CheckpointKey>, turn: Option<&str>, correlation: Option<&str>) -> (res: Option<usize>)
    requires
        forall|i: int| 0 <= i < pending.len() ==> (#[trigger] pending@[i]) < keys.len(),
    ensures
        match last_in_cycle(pending@, keys@, opt_str(turn), opt_str(correlation), pending@.len()) {
            Some(j) => res == Some(j as usize),
            None => res is None,
        },
{
    let mut n: usize = pending.len();
    while n > 0
        invariant
            n <= pending.len(),
            forall|i: int| 0 <= i < pending.len() ==> (#[trigger] pending@[i]) < keys.len(),
            last_in_cycle(pending@, keys@, opt_str(turn), opt_str(correlation), pending@.len())
                == last_in_cycle(pending@, keys@, opt_str(turn), opt_str(correlation), n as nat),
        decreases n,
    {
        let idx = pending[n - 1];
        if key_in_cycle_exec(&keys[idx], turn, correlation) {
            return Some(n - 1);
        }
        n = n - 1;
    }
    None
}

/// The latest pre-compaction checkpoint of the session that no post-compaction checkpoint
/// has closed and that belongs to the given compaction, by its index in `keys`; none without
/// a session.
pub fn open_pre_compaction(keys: &Vec<CheckpointKey>, session: Option<&str>, turn: Option<&str>, correlation: Option<&str>) -> (res: Option<usize>)
    ensures
        res == spec_open_pre_compaction(keys@, opt_str(session), opt_str(turn), opt_str(correlation)),
{
    let session = match session {
        Some(s) => s,
        None => return None,
    };
    let mut pending: Vec<usize> = Vec::new();
    let mut i: usize = 0;
    while i < keys.len()
        invariant
            i <= keys.len(),
            pending@ == open_pre_compactions(keys@.take(i as int), session@),
            forall|p: int| 0 <= p < pending.len() ==> (#[trigger] pending@[p]) < i,
        decreases keys.len() - i,
    {
        let k = &keys[i];
        proof {
            assert(keys@.take(i + 1).drop_last() =~= keys@.take(i as int));
            assert(keys@.take(i + 1).last() == keys@[i as int]);
        }
        if key_in_session_exec(k, session) {
            let ec = chars_of(k.event.as_str());
            if eq_lit(&ec, "PreCompact") {
                pending.push(i);
            } else if eq_lit(&ec, "PostCompact") {
                let found = last_in_cycle_exec(&pending, keys, opt_as_str(&k.turn), opt_as_str(&k.correlation));
                proof {
                    lemma_last_in_cycle_prefix(pending@, keys@, keys@.take(i as int), opt_string(k.turn), opt_string(k.correlation), pending@.len());
                    lemma_last_in_cycle_bounds(pending@, keys@, opt_string(k.turn), opt_string(k.correlation), pending@.len());
                }
                match found {
                    Some(j) => {
                        let ghost before = pending@;
                        let _ = pending.remove(j);
                        proof {
                            assert forall|p: int| 0 <= p < pending.len() implies (#[trigger] pending@[p]) < i + 1 by {
                                if p < j {
                                    assert(pending@[p] == before[p]);
                                } else {
                                    assert(pending@[p] == before[p + 1]);
                                }
                            }
                        }
                    },
                    None => {},
                }
            }
        }
        i = i + 1;
    }
    proof {
        assert(keys@.take(keys@.len() as int) =~= keys@);
    }
    let found = last_in_cycle_exec(&pending, keys, turn, correlation);
    proof {
        lemma_last_in_cycle_bounds(pending@, keys@, opt_str(turn), opt_str(correlation), pending@.len());
    }
    match found {
        Some(j) => Some(pending[j]),
        None => None,
    }
}

proof fn lemma_last_in_cycle_bounds(pending: Seq<usize>, keys: Seq<CheckpointKey>, turn: Option<Seq<char>>, correlation: Option<Seq<char>>, n: nat)
    ensures
        last_in_cycle(pending, keys, turn, correlation, n) matches Some(j) ==> 0 <= j < n,
    decreases n,
{
    if n > 0 {
        lemma_last_in_cycle_bounds(pending, keys, turn, correlation, (n - 1) as nat);
    }
}

proof fn lemma_last_in_cycle_prefix(pending: Seq<usize>, keys: Seq<CheckpointKey>, prefix: Seq<CheckpointKey>, turn: Option<Seq<char>>, correlation: Option<Seq<char>>, n: nat)
    requires
        n <= pending.len(),
        prefix.len() <= keys.len(),
        forall|i: int| 0 <= i < prefix.len() ==> prefix[i] == keys[i],
        forall|p: int| 0 <= p < pending.len() ==> (#[trigger] pending[p]) < prefix.len(),
    ensures
        last_in_cycle(pending, keys, turn, correlation, n) == last_in_cycle(pending, prefix, turn, correlation, n),
    decreases n,
{
    if n > 0 {
        lemma_last_in_cycle_prefix(pending, keys, prefix, turn, correlation, (n - 1) as nat);
    }
}

/// The index of the session's latest `PreCompact` or `PostCompact` checkpoint; none without
/// a session.
pub fn latest_compaction_event(keys: &Vec<CheckpointKey>, session: Option<&str>) -> (res: Option<usize>)
    ensures
        res == match opt_str(session) {
            Some(s) => spec_latest_compaction_event(keys@, s, keys@.len()),
            None => None,
        },
{
    let sess = match session {
        Some(s) => s,
        None => return None,
    };
    assert(opt_str(session) == Some(sess@));
    let mut n: usize = keys.len();
    while n > 0
        invariant
            n <= keys.len(),
            opt_str(session) == Some(sess@),
            spec_latest_compaction_event(keys@, sess@, keys@.len()) == spec_latest_compaction_event(keys@, sess@, n as nat),
        decreases n,
    {
        let k = &keys[n - 1];
        if key_in_session_exec(k, sess) {
            let ec = chars_of(k.event.as_str());
            if eq_lit(&ec, "PreCompact") || eq_lit(&ec, "PostCompact") {
                assert(key_in_session(keys@[n - 1], sess@));
                assert(spec_latest_compaction_event(keys@, sess@, n as nat) == Some((n - 1) as usize));
                return Some(n - 1);
            }
        }
        n = n - 1;
    }
    None
}

/// A checkpoint of the given session, event and compaction.
pub open spec fn is_checkpoint_of(k: CheckpointKey, session: Seq<char>, event: Seq<char>, turn: Seq<char>, correlation: Option<Seq<char>>) -> bool {
    &&& opt_string(k.session) == Some(session)
    &&& k.event@ == event
    &&& opt_string(k.turn) == Some(turn)
    &&& opt_string(k.correlation) == correlation
}

proof fn lemma_no_turn_no_cycle(pending: Seq<usize>, keys: Seq<CheckpointKey>, correlation: Option<Seq<char>>, n: nat)
    ensures
        last_in_cycle(pending, keys, None, correlation, n) is None,
    decreases n,
{
    if n > 0 {
        lemma_no_turn_no_cycle(pending, keys, correlation, (n - 1) as nat);
    }
}

/// A compaction without a known turn never matches a pre-compaction checkpoint, so its
/// savings are never measured against one.
pub proof fn lemma_no_turn_no_open_pre_compaction(keys: Seq<CheckpointKey>, session: Option<Seq<char>>, correlation: Option<Seq<char>>)
    ensures
        spec_open_pre_compaction(keys, session, None, correlation) is None,
{
    if let Some(s) = session {
        let open = open_pre_compactions(keys, s);
        lemma_no_turn_no_cycle(open, keys, correlation, open.len());
    }
}

/// Right after a session writes a pre-compaction checkpoint, that checkpoint is the one its
/// compaction finds.
pub proof fn lemma_new_pre_compaction_is_found(keys: Seq<CheckpointKey>, pre: CheckpointKey, session: Seq<char>, turn: Seq<char>, correlation: Option<Seq<char>>)
    requires
        is_checkpoint_of(pre, session, "PreCompact"@, turn, correlation),
        keys.len() < usize::MAX,
    ensures
        spec_open_pre_compaction(keys.push(pre), Some(session), Some(turn), correlation) == Some(keys.len() as usize),
{
    let all = keys.push(pre);
    reveal_strlit("PreCompact");
    reveal_strlit("PostCompact");
    assert(all.drop_last() =~= keys);
    assert(all.last() == pre);
    let open = open_pre_compactions(all, session);
    assert(open == open_pre_compactions(keys, session).push(keys.len() as usize));
    assert(key_in_cycle(all[open[open.len() - 1] as int], Some(turn), correlation));
}

/// A post-compaction checkpoint closes the pre-compaction checkpoint of its compaction: a
/// pre-compaction checkpoint followed by the matching post-compaction one leaves the open
/// checkpoints of the session as they were.
pub proof fn lemma_post_compaction_closes_pre(keys: Seq<CheckpointKey>, pre: CheckpointKey, post: CheckpointKey, session: Seq<char>, turn: Seq<char>, correlation: Option<Seq<char>>)
    requires
        is_checkpoint_of(pre, session, "PreCompact"@, turn, correlation),
        is_checkpoint_of(post, session, "PostCompact"@, turn, correlation),
        keys.len() < usize::MAX,
    ensures
        open_pre_compactions(keys.push(pre).push(post), session) == open_pre_compactions(keys, session),
{
    let with_pre = keys.push(pre);
    let all = with_pre.push(post);
    reveal_strlit("PreCompact");
    reveal_strlit("PostCompact");
    assert(with_pre.drop_last() =~= keys);
    assert(all.drop_last() =~= with_pre);
    let prev = open_pre_compactions(keys, session);
    let open = open_pre_compactions(with_pre, session);
    assert(open == prev.push(keys.len() as usize));
    assert(key_in_cycle(with_pre[open[open.len() - 1] as int], opt_string(post.turn), opt_string(post.correlation)));
    assert(last_in_cycle(open, with_pre, opt_string(post.turn), opt_string(post.correlation), open.len()) == Some(prev.len() as int));
    assert(open.remove(prev.len() as int) =~= prev);
    assert(all.last() == post);
    assert(post.event@.len() != "PreCompact"@.len());
    assert(open_pre_compactions(all, session) == open.remove(prev.len() as int));
}

} // verus!
