//! Per-turn review: the request describing the reviewed content, the deterministic local
//! findings.
//!
//! The review body reaches the judge only with explicit consent, and only redacted; the
//! final status and whether a fix is applied are always decided here.

use vstd::prelude::*;

use crate::decision::Severity;
use crate::error::JevxError;
use crate::cost::CostStatus;
use crate::route::{is_failed_route, RoutePlan, RouteStatus};
use crate::digest::{sha256_hex, sha256_of};
use crate::path::{
    components_of, component_views, file_name, file_name_of, path_components, COMPONENT_CUR_DIR,
    COMPONENT_NORMAL,
};
use crate::redaction::{redact, redacted};
use crate::text::{
    ascii_lower, chars_of, concat3, contains_lit, contains_seq, ends_with, eq_lit, keyword_key,
    lines, split_lines, starts_with, to_ascii_lower, trim_chars, vviews,
};

verus! {

pub const REVIEW_SCHEMA_VERSION: u8 = 2;

#[derive(Debug, Clone, Copy, PartialEq, Eq, Structural)]
pub enum ReviewTarget {
    Prompt,
    Plan,
    Diff,
    FinalAnswer,
    Turn,
}

#[derive(Debug, Clone, Copy, PartialEq, Eq, Structural)]
pub enum ReviewCategory {
    JapaneseClarity,
    TextContradiction,
    CodeContradiction,
    CommentImplementationDrift,
}

pub open spec fn spec_category_key(c: ReviewCategory) -> Seq<char> {
    match c {
        ReviewCategory::JapaneseClarity => "japanese_clarity"@,
        ReviewCategory::TextContradiction => "text_contradiction"@,
        ReviewCategory::CodeContradiction => "code_contradiction"@,
        ReviewCategory::CommentImplementationDrift => "comment_implementation_drift"@,
    }
}

pub open spec fn spec_category_label(c: ReviewCategory) -> Seq<char> {
    match c {
        ReviewCategory::JapaneseClarity => "日本語のわかりにくい表現"@,
        ReviewCategory::TextContradiction => "文章内の矛盾"@,
        ReviewCategory::CodeContradiction => "コード内の意味的矛盾"@,
        ReviewCategory::CommentImplementationDrift => "コメントと実装の乖離"@,
    }
}

impl ReviewCategory {
    pub fn key(self) -> (res: &'static str)
        ensures
            res@ == spec_category_key(self),
    {
        match self {
            ReviewCategory::JapaneseClarity => "japanese_clarity",
            ReviewCategory::TextContradiction => "text_contradiction",
            ReviewCategory::CodeContradiction => "code_contradiction",
            ReviewCategory::CommentImplementationDrift => "comment_implementation_drift",
        }
    }

    pub fn label(self) -> (res: &'static str)
        ensures
            res@ == spec_category_label(self),
    {
        match self {
            ReviewCategory::JapaneseClarity => "日本語のわかりにくい表現",
            ReviewCategory::TextContradiction => "文章内の矛盾",
            ReviewCategory::CodeContradiction => "コード内の意味的矛盾",
            ReviewCategory::CommentImplementationDrift => "コメントと実装の乖離",
        }
    }

    /// Code contradictions and comment drift concern code; the others concern prose.
    pub fn is_code_related(self) -> (res: bool)
        ensures
            res == (self == ReviewCategory::CodeContradiction || self
                == ReviewCategory::CommentImplementationDrift),
    {
        match self {
            ReviewCategory::CodeContradiction | ReviewCategory::CommentImplementationDrift => true,
            _ => false,
        }
    }
}

#[derive(Debug, Clone, Copy, PartialEq, Eq, Structural)]
pub enum ReviewStatus {
    Completed,
    /// The review found nothing (recorded as `none`).
    NoFindings,
    Unknown,
    Degraded,
    Failed,
}

pub open spec fn spec_status_label(s: ReviewStatus) -> Seq<char> {
    match s {
        ReviewStatus::Completed => "completed"@,
        ReviewStatus::NoFindings => "none"@,
        ReviewStatus::Unknown => "unknown"@,
        ReviewStatus::Degraded => "degraded"@,
        ReviewStatus::Failed => "failed"@,
    }
}

/// The label a review status is recorded under.
pub fn status_label(status: ReviewStatus) -> (res: &'static str)
    ensures
        res@ == spec_status_label(status),
{
    match status {
        ReviewStatus::Completed => "completed",
        ReviewStatus::NoFindings => "none",
        ReviewStatus::Unknown => "unknown",
        ReviewStatus::Degraded => "degraded",
        ReviewStatus::Failed => "failed",
    }
}

/// What is reviewed, described without its body: digests, sizes and consent flags. The
/// redacted body travels in `content` only with consent, and in `local_content` for the
/// local checks.
#[derive(Debug, Clone, PartialEq, Eq)]
pub struct ReviewRequest {
    pub schema_version: u8,
    pub target: ReviewTarget,
    pub content_digest: String,
    pub content_chars: usize,
    pub content_included: bool,
    pub content: Option<String>,
    pub local_content: Option<String>,
    pub cwd_digest: Option<String>,
    pub task_id_sha256: Option<String>,
    pub session_id_sha256: Option<String>,
    pub turn_id_sha256: Option<String>,
    pub file_count: usize,
    pub skill_body_included: bool,
    pub settings_included: bool,
}

pub open spec fn opt_view(v: Option<String>) -> Option<Seq<char>> {
    match v {
        Some(s) => Some(s@),
        None => None,
    }
}

pub open spec fn opt_str(v: Option<&str>) -> Option<Seq<char>> {
    match v {
        Some(s) => Some(s@),
        None => None,
    }
}

pub open spec fn opt_digest(v: Option<&str>) -> Option<Seq<char>> {
    match v {
        Some(s) => Some(sha256_of(s@)),
        None => None,
    }
}

fn digest_opt(v: Option<&str>) -> (res: Option<String>)
    ensures
        opt_view(res) == opt_digest(v),
{
    match v {
        Some(s) => Some(sha256_hex(s)),
        None => None,
    }
}

impl ReviewRequest {
    /// The request for a piece of content. Its digest and length are of the raw text; the
    /// body, redacted, is included only when `allow_content` is set and it is not empty; the
    /// working directory is kept only as the digest of its redacted text.
    pub fn from_content(target: ReviewTarget, content: Option<&str>, cwd: Option<&str>, allow_content: bool) -> (res: ReviewRequest)
        ensures
            ({
                let raw = match content {
                    Some(c) => c@,
                    None => Seq::<char>::empty(),
                };
                let included = allow_content && raw.len() > 0;
                &&& res.schema_version == REVIEW_SCHEMA_VERSION
                &&& res.target == target
                &&& res.content_digest@ == sha256_of(raw)
                &&& res.content_chars == raw.len()
                &&& res.content_included == included
                &&& opt_view(res.content) == (if included { Some(redacted(raw)) } else { None })
                &&& opt_view(res.local_content) == (if raw.len() > 0 { Some(redacted(raw)) } else { None })
                &&& opt_view(res.cwd_digest) == (match cwd {
                    Some(p) => Some(sha256_of(redacted(p@))),
                    None => None,
                })
                &&& res.task_id_sha256 is None
                &&& res.session_id_sha256 is None
                &&& res.turn_id_sha256 is None
                &&& res.file_count == 0
                &&& !res.skill_body_included
                &&& !res.settings_included
            }),
    {
        let raw: &str = match content {
            Some(c) => c,
            None => "",
        };
        proof {
            if content is None {
                assert(raw@ =~= Seq::<char>::empty()) by {
                    reveal_strlit("");
                }
            }
        }
        let raw_chars = chars_of(raw);
        let red = redact(raw);
        let nonempty = raw_chars.len() > 0;
        let included = allow_content && nonempty;
        let cwd_digest = match cwd {
            Some(p) => {
                let r = redact(p);
                Some(sha256_hex(r.as_str()))
            },
            None => None,
        };
        ReviewRequest {
            schema_version: REVIEW_SCHEMA_VERSION,
            target,
            content_digest: sha256_hex(raw),
            content_chars: raw_chars.len(),
            content_included: included,
            content: if included { Some(red.clone()) } else { None },
            local_content: if nonempty { Some(red) } else { None },
            cwd_digest,
            task_id_sha256: None,
            session_id_sha256: None,
            turn_id_sha256: None,
            file_count: 0,
            skill_body_included: false,
            settings_included: false,
        }
    }

    pub fn with_metadata(self, file_count: usize, skill_body_included: bool, settings_included: bool) -> (res: ReviewRequest)
        ensures
            res == (ReviewRequest { file_count, skill_body_included, settings_included, ..self }),
    {
        let mut out = self;
        out.file_count = file_count;
        out.skill_body_included = skill_body_included;
        out.settings_included = settings_included;
        out
    }

    /// Records the task, session and turn identifiers only as their digests.
    pub fn with_identifiers(self, task_id: Option<&str>, session_id: Option<&str>, turn_id: Option<&str>) -> (res: ReviewRequest)
        ensures
            opt_view(res.task_id_sha256) == opt_digest(task_id),
            opt_view(res.session_id_sha256) == opt_digest(session_id),
            opt_view(res.turn_id_sha256) == opt_digest(turn_id),
            res.schema_version == self.schema_version,
            res.target == self.target,
            res.content_digest == self.content_digest,
            res.content_chars == self.content_chars,
            res.content_included == self.content_included,
            res.content == self.content,
            res.local_content == self.local_content,
            res.cwd_digest == self.cwd_digest,
            res.file_count == self.file_count,
            res.skill_body_included == self.skill_body_included,
            res.settings_included == self.settings_included,
    {
        let mut out = self;
        out.task_id_sha256 = digest_opt(task_id);
        out.session_id_sha256 = digest_opt(session_id);
        out.turn_id_sha256 = digest_opt(turn_id);
        out
    }
}

// ---------------------------------------------------------------------------------------
// Local findings
// ---------------------------------------------------------------------------------------

/// A finding made by local code. (Local findings are certain; their confidence is 1.)
#[derive(Debug, Clone, PartialEq, Eq)]
pub struct LocalFinding {
    pub id: String,
    pub category: ReviewCategory,
    pub severity: Severity,
    pub source: String,
    pub message: String,
    pub evidence_digest: String,
    pub fixable: bool,
}

/// Phrases that make Japanese instructions vague.
pub open spec fn has_vague_phrase(t: Seq<char>) -> bool {
    contains_seq(t, "適宜"@) || contains_seq(t, "いい感じ"@) || contains_seq(t, "適切に"@)
        || contains_seq(t, "なるべく"@) || contains_seq(t, "など"@)
}

/// A stated "returns true" contract next to a `return false`.
pub open spec fn has_return_conflict(t: Seq<char>) -> bool {
    let l = ascii_lower(t);
    (contains_seq(l, "must return true"@) && contains_seq(l, "return false"@)) || (contains_seq(
        l,
        "always true"@,
    ) && contains_seq(l, "return false"@)) || (contains_seq(l, "always returns true"@)
        && contains_seq(l, "return false"@))
}

/// A comment line that claims the code always returns true.
pub open spec fn is_claim_comment(line: Seq<char>) -> bool {
    let k = keyword_key(line);
    (starts_with(k, "//"@) || starts_with(k, "#"@)) && (contains_seq(k, "returns true"@)
        || contains_seq(k, "常に"@) || contains_seq(k, "always"@))
}

pub open spec fn has_claim_comment(t: Seq<char>) -> bool {
    exists|i: int| 0 <= i < lines(t).len() && is_claim_comment(#[trigger] lines(t)[i])
}

/// The categories local code flags in a text, in order: vague Japanese anywhere; a return
/// contract conflict and a comment that contradicts the code outside prompts.
pub open spec fn local_categories(target: ReviewTarget, t: Seq<char>) -> Seq<ReviewCategory> {
    (if has_vague_phrase(t) {
        seq![ReviewCategory::JapaneseClarity]
    } else {
        seq![]
    }) + (if target != ReviewTarget::Prompt && has_return_conflict(t) {
        seq![ReviewCategory::CodeContradiction]
    } else {
        seq![]
    }) + (if target != ReviewTarget::Prompt && has_claim_comment(t) && contains_seq(
        ascii_lower(t),
        "return false"@,
    ) {
        seq![ReviewCategory::CommentImplementationDrift]
    } else {
        seq![]
    })
}

pub open spec fn local_code(c: ReviewCategory) -> Seq<char> {
    match c {
        ReviewCategory::JapaneseClarity => "ambiguous_expression"@,
        ReviewCategory::CodeContradiction => "return_contract_conflict"@,
        _ => "comment_return_contract_conflict"@,
    }
}

pub open spec fn local_severity(c: ReviewCategory) -> Severity {
    match c {
        ReviewCategory::JapaneseClarity => Severity::Low,
        ReviewCategory::CodeContradiction => Severity::High,
        _ => Severity::Medium,
    }
}

/// A local finding of a category with its code: id `local:<key>`, a message naming the
/// category and the code, the digest of `<key>:<code>`.
pub open spec fn is_local_finding(f: LocalFinding, c: ReviewCategory, code: Seq<char>, severity: Severity) -> bool {
    &&& f.id@ == "local:"@ + spec_category_key(c)
    &&& f.category == c
    &&& f.severity == severity
    &&& f.source@ == "local"@
    &&& f.message@ == spec_category_label(c) + "を確認してください（"@ + code + "）。"@
    &&& f.evidence_digest@ == sha256_of(spec_category_key(c) + ":"@ + code)
    &&& f.fixable
}

fn local_finding(category: ReviewCategory, code: &str, severity: Severity) -> (res: LocalFinding)
    ensures
        is_local_finding(res, category, code@, severity),
{
    let key = category.key();
    let id = concat3("local:", key, "");
    let head = concat3(category.label(), "を確認してください（", code);
    let message = concat3(head.as_str(), "）。", "");
    let ev = concat3(key, ":", code);
    proof {
        reveal_strlit("");
        assert(id@ =~= "local:"@ + spec_category_key(category));
        assert(message@ =~= spec_category_label(category) + "を確認してください（"@ + code@ + "）。"@);
    }
    LocalFinding {
        id,
        category,
        severity,
        source: "local".to_owned(),
        message,
        evidence_digest: sha256_hex(ev.as_str()),
        fixable: true,
    }
}

fn has_claim_comment_exec(t: &[char]) -> (res: bool)
    ensures
        res == has_claim_comment(t@),
{
    let ls = split_lines(t);
    let mut i: usize = 0;
    while i < ls.len()
        invariant
            i <= ls.len(),
            vviews(ls@) == lines(t@),
            forall|k: int| 0 <= k < i ==> !is_claim_comment(#[trigger] lines(t@)[k]),
        decreases ls.len() - i,
    {
        let tr = trim_chars(&ls[i]);
        let k = to_ascii_lower(&tr);
        proof {
            assert(lines(t@)[i as int] == ls@[i as int]@);
        }
        if (crate::text::starts_with_chars(&k, &chars_of("//")) || crate::text::starts_with_chars(&k, &chars_of("#")))
            && (contains_lit(&k, "returns true") || contains_lit(&k, "常に") || contains_lit(&k, "always")) {
            return true;
        }
        i = i + 1;
    }
    false
}

/// The findings local code makes on a text, without consulting the judge.
pub fn local_findings(target: ReviewTarget, content: &str) -> (res: Vec<LocalFinding>)
    ensures
        ({
            let cats = local_categories(target, content@);
            &&& res@.len() == cats.len()
            &&& forall|i: int| 0 <= i < cats.len() ==> is_local_finding(#[trigger] res@[i], cats[i], local_code(cats[i]), local_severity(cats[i]))
        }),
{
    let t = chars_of(content);
    let lower = to_ascii_lower(&t);
    let mut res: Vec<LocalFinding> = Vec::new();
    let ghost cats = local_categories(target, content@);
    let vague = contains_lit(&t, "適宜") || contains_lit(&t, "いい感じ") || contains_lit(&t, "適切に")
        || contains_lit(&t, "なるべく") || contains_lit(&t, "など");
    if vague {
        res.push(local_finding(ReviewCategory::JapaneseClarity, "ambiguous_expression", Severity::Low));
    }
    let rf = contains_lit(&lower, "return false");
    let conflict = (contains_lit(&lower, "must return true") && rf) || (contains_lit(&lower, "always true") && rf)
        || (contains_lit(&lower, "always returns true") && rf);
    let not_prompt = target != ReviewTarget::Prompt;
    if not_prompt && conflict {
        res.push(local_finding(ReviewCategory::CodeContradiction, "return_contract_conflict", Severity::High));
    }
    let claim = has_claim_comment_exec(&t);
    if not_prompt && claim && rf {
        res.push(local_finding(ReviewCategory::CommentImplementationDrift, "comment_return_contract_conflict", Severity::Medium));
    }
    proof {
        assert(res@.len() == cats.len());
        assert forall|i: int| 0 <= i < cats.len() implies is_local_finding(#[trigger] res@[i], cats[i], local_code(cats[i]), local_severity(cats[i])) by {
            if vague {
                if i == 0 {
                    assert(cats[0] == ReviewCategory::JapaneseClarity);
                }
            }
        }
    }
    res
}

// ---------------------------------------------------------------------------------------
// Fix plans
// ---------------------------------------------------------------------------------------

/// A requested edit: a workspace-relative path, the digest the file must have now, and the
/// replacement with its digest.
#[derive(Debug, Clone, PartialEq, Eq)]
pub struct FixOperation {
    pub path: String,
    pub expected_sha256: String,
    pub replacement_sha256: String,
    pub replacement: Option<String>,
}

#[derive(Debug, Clone, Copy, PartialEq, Eq, Structural)]
pub enum FixStatus {
    NotRequested,
    Blocked,
    Applied,
    Partial,
    Skipped,
    Failed,
}

#[derive(Debug, Clone, PartialEq, Eq)]
pub struct FixPlan {
    pub schema_version: u8,
    pub requested: bool,
    pub operations: Vec<FixOperation>,
    pub status: FixStatus,
    pub reason: String,
}

impl FixPlan {
    pub fn not_requested() -> (res: FixPlan)
        ensures
            res.schema_version == REVIEW_SCHEMA_VERSION,
            !res.requested,
            res.operations@.len() == 0,
            res.status == FixStatus::NotRequested,
            res.reason@ == "auto_fix_not_requested"@,
    {
        FixPlan {
            schema_version: REVIEW_SCHEMA_VERSION,
            requested: false,
            operations: Vec::new(),
            status: FixStatus::NotRequested,
            reason: "auto_fix_not_requested".to_owned(),
        }
    }

    /// A requested plan starts blocked until the review gate has passed.
    pub fn requested(operations: Vec<FixOperation>) -> (res: FixPlan)
        ensures
            res.schema_version == REVIEW_SCHEMA_VERSION,
            res.requested,
            res.operations == operations,
            res.status == FixStatus::Blocked,
            res.reason@ == "awaiting_code_side_review_gate"@,
    {
        FixPlan {
            schema_version: REVIEW_SCHEMA_VERSION,
            requested: true,
            operations,
            status: FixStatus::Blocked,
            reason: "awaiting_code_side_review_gate".to_owned(),
        }
    }
}

/// A requested plan becomes blocked with the given reason; a plan not requested is kept.
pub fn fix_plan_blocked(plan: FixPlan, reason: &str) -> (res: FixPlan)
    ensures
        plan.requested ==> (res.status == FixStatus::Blocked && res.reason@ == reason@ && res.requested
            && res.operations == plan.operations && res.schema_version == plan.schema_version),
        !plan.requested ==> res == plan,
{
    let mut plan = plan;
    if plan.requested {
        plan.status = FixStatus::Blocked;
        plan.reason = reason.to_owned();
    }
    plan
}

/// How applying a plan ended.
#[derive(Debug, Clone, PartialEq, Eq)]
pub struct FixApplication {
    pub status: FixStatus,
    pub applied_count: usize,
    pub skipped_count: usize,
    pub reason: String,
}

/// Names of files a fix may never write.
pub open spec fn is_protected_file(f: Seq<char>) -> bool {
    f == ".env"@ || f == ".env.local"@ || f == ".env.production"@ || f == "id_rsa"@ || f
        == "credentials"@ || ends_with(f, ".pem"@) || ends_with(f, ".key"@)
}

/// A component a fix path may hold: the current directory, or a normal name that is not
/// `.git`, not `legacy` and not hidden.
pub open spec fn allowed_component(c: (u8, Seq<char>)) -> bool {
    c.0 == COMPONENT_CUR_DIR || (c.0 == COMPONENT_NORMAL && c.1 != ".git"@ && c.1 != "legacy"@
        && !starts_with(c.1, "."@))
}

/// A path a fix may write: relative and not empty, made of allowed components with at
/// least one name, and not naming a protected file.
pub open spec fn spec_safe_fix_path(p: Seq<char>) -> bool {
    let cs = path_components(p);
    let f = match file_name(p) {
        Some(n) => n,
        None => Seq::<char>::empty(),
    };
    &&& p.len() > 0
    &&& p[0] != '/'
    &&& forall|i: int| 0 <= i < cs.len() ==> allowed_component(#[trigger] cs[i])
    &&& exists|i: int| 0 <= i < cs.len() && (#[trigger] cs[i]).0 == COMPONENT_NORMAL
    &&& !is_protected_file(f)
}

fn is_protected_file_exec(f: &[char]) -> (res: bool)
    ensures
        res == is_protected_file(f@),
{
    let pem = chars_of(".pem");
    let key = chars_of(".key");
    eq_lit(f, ".env") || eq_lit(f, ".env.local") || eq_lit(f, ".env.production") || eq_lit(f, "id_rsa")
        || eq_lit(f, "credentials") || crate::text::ends_with_chars(f, &pem) || crate::text::ends_with_chars(f, &key)
}

pub fn safe_fix_path(path: &str) -> (res: bool)
    ensures
        res == spec_safe_fix_path(path@),
{
    let p = chars_of(path);
    if p.len() == 0 || p[0] == '/' {
        return false;
    }
    let cs = components_of(path);
    let ghost cv = path_components(path@);
    proof {
        assert(component_views(cs@).len() == cs@.len());
    }
    let mut has_normal = false;
    let mut i: usize = 0;
    while i < cs.len()
        invariant
            i <= cs.len(),
            cv == path_components(path@),
            component_views(cs@) == cv,
            cv.len() == cs@.len(),
            forall|k: int| 0 <= k < i ==> allowed_component(#[trigger] cv[k]),
            has_normal <==> exists|k: int| 0 <= k < i && (#[trigger] cv[k]).0 == COMPONENT_NORMAL,
        decreases cs.len() - i,
    {
        let kind = cs[i].kind;
        proof {
            assert(cv[i as int] == (cs@[i as int].kind, cs@[i as int].text@));
        }
        if kind == COMPONENT_NORMAL {
            let t = chars_of(cs[i].text.as_str());
            if eq_lit(&t, ".git") || eq_lit(&t, "legacy") || (t.len() > 0 && t[0] == '.') {
                proof {
                    if t.len() > 0 && t[0] == '.' {
                        assert(t@.take(1) =~= "."@) by {
                            reveal_strlit(".");
                        }
                    }
                }
                return false;
            }
            proof {
                assert(!starts_with(t@, "."@)) by {
                    reveal_strlit(".");
                    if t@.len() > 0 {
                        assert(t@.take(1)[0] == t@[0]);
                    }
                }
            }
            has_normal = true;
        } else if kind != COMPONENT_CUR_DIR {
            return false;
        }
        i = i + 1;
    }
    let f = match file_name_of(path) {
        Some(n) => chars_of(n.as_str()),
        None => {
            let e = chars_of("");
            proof {
                reveal_strlit("");
                assert(e@ =~= Seq::<char>::empty());
            }
            e
        },
    };
    proof {
        let fname = match file_name(path@) {
            Some(n) => n,
            None => Seq::<char>::empty(),
        };
        assert(f@ == fname);
        assert(i == cv.len());
    }
    has_normal && !is_protected_file_exec(&f)
}


// ---------------------------------------------------------------------------------------
// Applying a fix plan
// ---------------------------------------------------------------------------------------

/// Decides, before any file is opened, whether the operations are to be tried (`None`):
/// only when fixing is enabled and requested, the review completed, every finding has high
/// confidence, and there is at least one operation.
pub fn fix_gate(enabled: bool, requested: bool, status: ReviewStatus, all_high_confidence: bool, operation_count: usize) -> (res: Option<FixApplication>)
    ensures
        (!enabled || !requested) ==> (res matches Some(a) && a.status == FixStatus::NotRequested
            && a.applied_count == 0 && a.skipped_count == 0 && a.reason@ == "auto_fix_not_enabled"@),
        (enabled && requested && (status != ReviewStatus::Completed || !all_high_confidence)) ==> (
            res matches Some(a) && a.status == FixStatus::Blocked && a.applied_count == 0
            && a.skipped_count == operation_count && a.reason@ == "review_not_high_confidence_or_completed"@),
        (enabled && requested && status == ReviewStatus::Completed && all_high_confidence
            && operation_count == 0) ==> (res matches Some(a) && a.status == FixStatus::Skipped
            && a.applied_count == 0 && a.skipped_count == 0 && a.reason@ == "no_fix_operations"@),
        (enabled && requested && status == ReviewStatus::Completed && all_high_confidence
            && operation_count > 0) ==> res is None,
{
    if !enabled || !requested {
        return Some(FixApplication { status: FixStatus::NotRequested, applied_count: 0, skipped_count: 0, reason: "auto_fix_not_enabled".to_owned() });
    }
    if status != ReviewStatus::Completed || !all_high_confidence {
        return Some(FixApplication {
            status: FixStatus::Blocked,
            applied_count: 0,
            skipped_count: operation_count,
            reason: "review_not_high_confidence_or_completed".to_owned(),
        });
    }
    if operation_count == 0 {
        return Some(FixApplication { status: FixStatus::Skipped, applied_count: 0, skipped_count: 0, reason: "no_fix_operations".to_owned() });
    }
    None
}

/// What is to be done with one operation.
#[derive(Debug, Clone, Copy, PartialEq, Eq, Structural)]
pub enum FixCheck {
    /// The path is unsafe, the file could not be read, or the replacement is missing or
    /// does not match its digest.
    Skip,
    /// The file's current digest is not the expected one: it must not be overwritten.
    Mismatch,
    /// The replacement may be written.
    Write,
}

pub open spec fn spec_fix_check(path: Seq<char>, expected: Seq<char>, replacement: Option<Seq<char>>, replacement_sha256: Seq<char>, current: Option<Seq<char>>) -> FixCheck {
    if !spec_safe_fix_path(path) {
        FixCheck::Skip
    } else if current is None {
        FixCheck::Skip
    } else if sha256_of(current->0) != expected {
        FixCheck::Mismatch
    } else if replacement is None {
        FixCheck::Skip
    } else if sha256_of(replacement->0) != replacement_sha256 {
        FixCheck::Skip
    } else {
        FixCheck::Write
    }
}

/// Checks one operation against the file's current text (`None` when it could not be read
/// inside the workspace).
pub fn check_fix_operation(op: &FixOperation, current: Option<&str>) -> (res: FixCheck)
    ensures
        res == spec_fix_check(op.path@, op.expected_sha256@, opt_view(op.replacement), op.replacement_sha256@, opt_str(current)),
{
    if !safe_fix_path(op.path.as_str()) {
        return FixCheck::Skip;
    }
    let cur = match current {
        Some(c) => c,
        None => return FixCheck::Skip,
    };
    let d = sha256_hex(cur);
    let dc = chars_of(d.as_str());
    let ec = chars_of(op.expected_sha256.as_str());
    if !crate::text::chars_eq(&dc, &ec) {
        return FixCheck::Mismatch;
    }
    match &op.replacement {
        None => FixCheck::Skip,
        Some(r) => {
            let rd = sha256_hex(r.as_str());
            let rc = chars_of(rd.as_str());
            let rs = chars_of(op.replacement_sha256.as_str());
            if crate::text::chars_eq(&rc, &rs) {
                FixCheck::Write
            } else {
                FixCheck::Skip
            }
        },
    }
}

/// How one operation ended.
#[derive(Debug, Clone, Copy, PartialEq, Eq, Structural)]
pub enum FixStep {
    Skipped,
    Mismatch,
    Written,
}

pub open spec fn count_step(steps: Seq<FixStep>, s: FixStep) -> nat
    decreases steps.len(),
{
    if steps.len() == 0 {
        0
    } else {
        count_step(steps.drop_last(), s) + if steps.last() == s {
            1nat
        } else {
            0nat
        }
    }
}

/// The outcome of trying every operation: all written is `Applied`, some is `Partial`;
/// with none written, a digest mismatch makes it `Skipped`, anything else `Failed`. A
/// mismatch is named in the reason.
pub fn finish_fix_application(steps: &Vec<FixStep>) -> (res: FixApplication)
    ensures
        ({
            let applied = count_step(steps@, FixStep::Written);
            let mismatch = count_step(steps@, FixStep::Mismatch) > 0;
            &&& res.applied_count == applied
            &&& res.skipped_count == steps@.len() - applied
            &&& res.status == (if applied == steps@.len() {
                FixStatus::Applied
            } else if applied > 0 {
                FixStatus::Partial
            } else if mismatch {
                FixStatus::Skipped
            } else {
                FixStatus::Failed
            })
            &&& res.reason@ == (if mismatch {
                "expected_hash_mismatch_prevented_overwrite"@
            } else {
                "fix_application_finished_without_backup"@
            })
        }),
{
    let mut applied: usize = 0;
    let mut mismatches: usize = 0;
    let mut i: usize = 0;
    while i < steps.len()
        invariant
            i <= steps.len(),
            applied == count_step(steps@.take(i as int), FixStep::Written),
            mismatches == count_step(steps@.take(i as int), FixStep::Mismatch),
            applied + mismatches <= i,
        decreases steps.len() - i,
    {
        proof {
            assert(steps@.take(i + 1).drop_last() =~= steps@.take(i as int));
        }
        match steps[i] {
            FixStep::Written => applied = applied + 1,
            FixStep::Mismatch => mismatches = mismatches + 1,
            FixStep::Skipped => {},
        }
        i = i + 1;
    }
    proof {
        assert(steps@.take(i as int) =~= steps@);
    }
    let status = if applied == steps.len() {
        FixStatus::Applied
    } else if applied > 0 {
        FixStatus::Partial
    } else if mismatches > 0 {
        FixStatus::Skipped
    } else {
        FixStatus::Failed
    };
    FixApplication {
        status,
        applied_count: applied,
        skipped_count: steps.len() - applied,
        reason: if mismatches > 0 {
            "expected_hash_mismatch_prevented_overwrite".to_owned()
        } else {
            "fix_application_finished_without_backup".to_owned()
        },
    }
}


// ---------------------------------------------------------------------------------------
// The review's course
// ---------------------------------------------------------------------------------------

pub const REVIEW_CONTRACT_VERSION: &'static str = "review-contract.v1";

/// Why a review cannot ask the judge, if it cannot: the content was not allowed, the state
/// is degraded, or there is no judge (no API key). Such a review is degraded.
pub fn review_gate(content_included: bool, state_degraded: bool, has_judge: bool) -> (res: Option<&'static str>)
    ensures
        !content_included ==> (res matches Some(r) && r@ == "content_opt_in_required"@),
        content_included && state_degraded ==> (res matches Some(r) && r@ == "state_degraded"@),
        content_included && !state_degraded && !has_judge ==> (res matches Some(r) && r@ == "missing_api_key"@),
        content_included && !state_degraded && has_judge ==> res is None,
{
    if !content_included {
        Some("content_opt_in_required")
    } else if state_degraded {
        Some("state_degraded")
    } else if !has_judge {
        Some("missing_api_key")
    } else {
        None
    }
}

/// The reason `review_gate` gives.
pub open spec fn spec_review_gate(content_included: bool, state_degraded: bool, has_judge: bool) -> Option<Seq<char>> {
    if !content_included {
        Some("content_opt_in_required"@)
    } else if state_degraded {
        Some("state_degraded"@)
    } else if !has_judge {
        Some("missing_api_key"@)
    } else {
        None
    }
}

/// A review stopped before the judge.
pub struct GatedReview {
    pub status: ReviewStatus,
    pub fallback: &'static str,
    pub route: RoutePlan,
    pub fix_plan: FixPlan,
    pub calls: u32,
    pub retries: u32,
    pub response_ms: u64,
}

/// A review stopped by `review_gate` is degraded; the reason it gives is the fallback and the
/// reason of a failed route; a requested fix plan is blocked for it (an unrequested one stays
/// as it was); no judge call is made. Without the content opt-in the review is always
/// stopped, for `content_opt_in_required`.
pub fn gated_review(content_included: bool, state_degraded: bool, has_judge: bool, fix_plan: FixPlan) -> (res: Option<GatedReview>)
    ensures
        match spec_review_gate(content_included, state_degraded, has_judge) {
            None => res is None,
            Some(reason) => res matches Some(g) && {
                &&& g.status == ReviewStatus::Degraded
                &&& g.fallback@ == reason
                &&& is_failed_route(g.route, reason)
                &&& g.calls == 0 && g.retries == 0 && g.response_ms == 0
                &&& (fix_plan.requested ==> (g.fix_plan.status == FixStatus::Blocked && g.fix_plan.reason@ == reason
                    && g.fix_plan.requested && g.fix_plan.operations == fix_plan.operations
                    && g.fix_plan.schema_version == fix_plan.schema_version))
                &&& (!fix_plan.requested ==> g.fix_plan == fix_plan)
            },
        },
        !content_included ==> (res matches Some(g) && g.fallback@ == "content_opt_in_required"@),
{
    match review_gate(content_included, state_degraded, has_judge) {
        Some(reason) => Some(GatedReview {
            status: ReviewStatus::Degraded,
            fallback: reason,
            route: RoutePlan::failed(reason),
            fix_plan: fix_plan_blocked(fix_plan, reason),
            calls: 0,
            retries: 0,
            response_ms: 0,
        }),
        None => None,
    }
}

/// The measurements and fallback of a review whose judge call failed.
#[derive(Debug, Clone, Copy, PartialEq, Eq)]
pub struct JudgeFailure {
    pub response_ms: u64,
    pub calls: u32,
    pub retries: u32,
    pub cache_hit: Option<bool>,
    pub fallback: &'static str,
}

pub open spec fn spec_judge_failure_fallback(e: &JevxError) -> Seq<char> {
    match e {
        JevxError::Timeout | JevxError::TimeoutWithMetrics { .. } => "timeout"@,
        JevxError::MissingApiKey => "missing_api_key"@,
        JevxError::InvalidInput(_) => "contract_failure"@,
        _ => "provider_error"@,
    }
}

/// A failed judge call keeps the measurements the error carries; without an API key the
/// cache was never consulted.
pub fn judge_failure(e: &JevxError) -> (res: JudgeFailure)
    ensures
        res.fallback@ == spec_judge_failure_fallback(e),
        match e {
            JevxError::ProviderWithMetrics { calls, retries, response_ms, .. } => res.calls == *calls
                && res.retries == *retries && res.response_ms == *response_ms,
            JevxError::TimeoutWithMetrics { calls, retries, response_ms } => res.calls == *calls
                && res.retries == *retries && res.response_ms == *response_ms,
            _ => res.calls == 0 && res.retries == 0 && res.response_ms == 0,
        },
        res.cache_hit == (if *e is MissingApiKey { None } else { Some(false) }),
{
    match e {
        JevxError::ProviderWithMetrics { calls, retries, response_ms, .. } => JudgeFailure {
            response_ms: *response_ms,
            calls: *calls,
            retries: *retries,
            cache_hit: Some(false),
            fallback: "provider_error",
        },
        JevxError::Timeout => JudgeFailure { response_ms: 0, calls: 0, retries: 0, cache_hit: Some(false), fallback: "timeout" },
        JevxError::TimeoutWithMetrics { calls, retries, response_ms } => JudgeFailure {
            response_ms: *response_ms,
            calls: *calls,
            retries: *retries,
            cache_hit: Some(false),
            fallback: "timeout",
        },
        JevxError::MissingApiKey => JudgeFailure { response_ms: 0, calls: 0, retries: 0, cache_hit: None, fallback: "missing_api_key" },
        JevxError::InvalidInput(_) => JudgeFailure { response_ms: 0, calls: 0, retries: 0, cache_hit: Some(false), fallback: "contract_failure" },
        _ => JudgeFailure { response_ms: 0, calls: 0, retries: 0, cache_hit: Some(false), fallback: "provider_error" },
    }
}

/// The status of a review the judge answered: degraded when any question stayed
/// unresolved, otherwise completed with findings or `none` without.
pub fn review_status(unresolved: bool, finding_count: usize) -> (res: ReviewStatus)
    ensures
        res == (if unresolved {
            ReviewStatus::Degraded
        } else if finding_count == 0 {
            ReviewStatus::NoFindings
        } else {
            ReviewStatus::Completed
        }),
{
    if unresolved {
        ReviewStatus::Degraded
    } else if finding_count == 0 {
        ReviewStatus::NoFindings
    } else {
        ReviewStatus::Completed
    }
}

/// A review that never reached the judge costs nothing outside.
pub fn known_no_external_review(fallback: Option<&str>) -> (res: bool)
    ensures
        res == (fallback matches Some(f) && (f@ == "content_opt_in_required"@ || f@ == "state_degraded"@
            || f@ == "missing_api_key"@)),
{
    match fallback {
        Some(f) => {
            let c = chars_of(f);
            eq_lit(&c, "content_opt_in_required") || eq_lit(&c, "state_degraded") || eq_lit(&c, "missing_api_key")
        },
        None => false,
    }
}

/// The replay id of a review: the digest of the contract version, the request's digest,
/// the status label and the findings' evidence digests, joined by `:`.
pub fn review_replay_id(request_digest: &str, status: ReviewStatus, evidence_digests: &Vec<String>) -> (res: String)
    ensures
        res@ == sha256_of(REVIEW_CONTRACT_VERSION@ + ":"@ + request_digest@ + ":"@ + spec_status_label(status) + ":"@
            + crate::text::join(evidence_digests@.map_values(|d: String| d@), ":"@)),
{
    let mut parts: Vec<Vec<char>> = Vec::new();
    let mut i: usize = 0;
    while i < evidence_digests.len()
        invariant
            i <= evidence_digests.len(),
            vviews(parts@) == evidence_digests@.map_values(|d: String| d@).take(i as int),
        decreases evidence_digests.len() - i,
    {
        let ghost before = vviews(parts@);
        parts.push(chars_of(evidence_digests[i].as_str()));
        proof {
            assert(vviews(parts@) =~= before.push(evidence_digests@[i as int]@));
            assert(vviews(parts@) =~= evidence_digests@.map_values(|d: String| d@).take(i + 1));
        }
        i = i + 1;
    }
    proof {
        assert(evidence_digests@.map_values(|d: String| d@).take(i as int) =~= evidence_digests@.map_values(|d: String| d@));
    }
    let colon = chars_of(":");
    let joined = crate::text::join_chars(&parts, &colon);
    let mut v = chars_of(REVIEW_CONTRACT_VERSION);
    crate::text::append_chars(&mut v, &colon);
    crate::text::append_chars(&mut v, &chars_of(request_digest));
    crate::text::append_chars(&mut v, &colon);
    crate::text::append_chars(&mut v, &chars_of(status_label(status)));
    crate::text::append_chars(&mut v, &colon);
    crate::text::append_chars(&mut v, &joined);
    let text = crate::text::string_from_chars(&v);
    sha256_hex(text.as_str())
}


// ---------------------------------------------------------------------------------------
// Statistics over review receipts
// ---------------------------------------------------------------------------------------

/// What the statistics read of a review receipt.
#[derive(Debug, Clone, Copy, PartialEq, Eq, Structural)]
pub struct ReviewReceiptFacts {
    pub status: ReviewStatus,
    pub finding_count: usize,
    pub route_status: RouteStatus,
    pub latency_ms: u64,
    pub calls: u32,
    pub retries: u32,
    pub cache_hit: Option<bool>,
    pub input_tokens: Option<u64>,
    pub output_tokens: Option<u64>,
    pub jev_cost_status: CostStatus,
    pub codex_cost_status: CostStatus,
    pub total_cost_status: CostStatus,
    pub additional_input_tokens: Option<u64>,
    pub additional_output_tokens: Option<u64>,
    pub additional_reasoning_tokens: Option<u64>,
}

/// The integer statistics of review receipts, accumulated one receipt at a time. Token
/// totals saturate and are present once any receipt reported them. `cost_status_counts`
/// counts `<part>:<status>` in the order of `cost_keys` (Codex, Jev, total; available,
/// unavailable, unknown).
#[derive(Debug, Clone)]
pub struct ReviewCounts {
    pub events: usize,
    pub completed: usize,
    pub none: usize,
    pub unknown: usize,
    pub degraded: usize,
    pub failed: usize,
    pub findings: usize,
    pub route_applied: usize,
    pub route_degraded: usize,
    pub route_failed: usize,
    pub latencies: Vec<u64>,
    pub calls: u64,
    pub retries: u64,
    pub cache_attempts: usize,
    pub cache_hits: usize,
    pub input_tokens: Option<u64>,
    pub output_tokens: Option<u64>,
    pub additional_input_tokens: Option<u64>,
    pub additional_output_tokens: Option<u64>,
    pub additional_reasoning_tokens: Option<u64>,
    pub cost_status_counts: Vec<usize>,
}

/// Adds an optional amount to an optional saturating total.
pub open spec fn add_seen(total: Option<u64>, v: Option<u64>) -> Option<u64> {
    match v {
        None => total,
        Some(x) => {
            let t = match total { Some(t) => t, None => 0 };
            Some(if t + x <= u64::MAX { (t + x) as u64 } else { u64::MAX })
        },
    }
}

fn add_seen_exec(total: Option<u64>, v: Option<u64>) -> (res: Option<u64>)
    ensures
        res == add_seen(total, v),
{
    match v {
        None => total,
        Some(x) => {
            let t = match total { Some(t) => t, None => 0 };
            Some(t.saturating_add(x))
        },
    }
}

/// The position of a part's status among the cost-status counters.
pub open spec fn cost_slot(part: int, st: CostStatus) -> int {
    let base = if part == 1 { 0int } else if part == 0 { 3int } else { 6int };
    base + match st {
        CostStatus::Available => 0int,
        CostStatus::Unavailable => 1int,
        CostStatus::Unknown => 2int,
    }
}

fn cost_slot_exec(part: u8, st: CostStatus) -> (res: usize)
    requires
        part <= 2,
    ensures
        res == cost_slot(part as int, st),
        res < 9,
{
    let base: usize = if part == 1 { 0 } else if part == 0 { 3 } else { 6 };
    base + match st {
        CostStatus::Available => 0,
        CostStatus::Unavailable => 1,
        CostStatus::Unknown => 2,
    }
}

pub open spec fn bump(counts: Seq<usize>, slot: int) -> Seq<usize> {
    counts.update(slot, (counts[slot] + 1) as usize)
}

/// The three cost-status counters of one part (available, unavailable, unknown), summed.
pub open spec fn part_total(counts: Seq<usize>, part: int) -> int {
    counts[cost_slot(part, CostStatus::Available)] + counts[cost_slot(part, CostStatus::Unavailable)]
        + counts[cost_slot(part, CostStatus::Unknown)]
}

proof fn lemma_bump_part_total(counts: Seq<usize>, part: int, st: CostStatus, other: int)
    requires
        counts.len() == 9,
        0 <= part <= 2,
        0 <= other <= 2,
        counts[cost_slot(part, st)] < usize::MAX,
    ensures
        bump(counts, cost_slot(part, st)).len() == 9,
        part_total(bump(counts, cost_slot(part, st)), other) == part_total(counts, other) + if other == part { 1int } else { 0 },
{
}

impl ReviewCounts {
    /// The totals agree: every receipt counts once by status, once by route status and once
    /// by each part's cost status; each has one latency; cache hits are among the cache
    /// attempts, which are among the receipts.
    pub open spec fn totals_agree(&self) -> bool {
        &&& self.completed + self.none + self.unknown + self.degraded + self.failed == self.events
        &&& self.route_applied + self.route_degraded + self.route_failed == self.events
        &&& self.cache_hits <= self.cache_attempts <= self.events
        &&& self.latencies@.len() == self.events
        &&& self.cost_status_counts@.len() == 9
        &&& part_total(self.cost_status_counts@, 0) == self.events
        &&& part_total(self.cost_status_counts@, 1) == self.events
        &&& part_total(self.cost_status_counts@, 2) == self.events
    }

    pub fn new() -> (res: ReviewCounts)
        ensures
            res.totals_agree(),
            res.events == 0 && res.completed == 0 && res.none == 0 && res.unknown == 0 && res.degraded == 0
                && res.failed == 0 && res.findings == 0 && res.route_applied == 0 && res.route_degraded == 0
                && res.route_failed == 0 && res.latencies@.len() == 0 && res.calls == 0 && res.retries == 0
                && res.cache_attempts == 0 && res.cache_hits == 0 && res.input_tokens is None
                && res.output_tokens is None && res.additional_input_tokens is None
                && res.additional_output_tokens is None && res.additional_reasoning_tokens is None,
            res.cost_status_counts@ == Seq::new(9, |i: int| 0usize),
    {
        let counts: Vec<usize> = vec![0, 0, 0, 0, 0, 0, 0, 0, 0];
        assert(counts@ =~= Seq::new(9, |i: int| 0usize));
        ReviewCounts {
            events: 0,
            completed: 0,
            none: 0,
            unknown: 0,
            degraded: 0,
            failed: 0,
            findings: 0,
            route_applied: 0,
            route_degraded: 0,
            route_failed: 0,
            latencies: Vec::new(),
            calls: 0,
            retries: 0,
            cache_attempts: 0,
            cache_hits: 0,
            input_tokens: None,
            output_tokens: None,
            additional_input_tokens: None,
            additional_output_tokens: None,
            additional_reasoning_tokens: None,
            cost_status_counts: counts,
        }
    }

    /// The counters may take one more receipt without overflowing.
    pub open spec fn can_add(&self, r: ReviewReceiptFacts) -> bool {
        &&& self.events < usize::MAX
        &&& self.completed <= self.events && self.none <= self.events && self.unknown <= self.events
        &&& self.degraded <= self.events && self.failed <= self.events
        &&& self.route_applied <= self.events && self.route_degraded <= self.events && self.route_failed <= self.events
        &&& self.cache_attempts <= self.events && self.cache_hits <= self.events
        &&& self.latencies@.len() <= self.events
        &&& self.findings + r.finding_count <= usize::MAX
        &&& self.calls + r.calls <= u64::MAX
        &&& self.retries + r.retries <= u64::MAX
        &&& self.cost_status_counts@.len() == 9
        &&& forall|i: int| 0 <= i < 9 ==> self.cost_status_counts@[i] <= self.events
    }

    /// Whether the receipt can be counted without overflowing.
    pub fn has_room_for(&self, r: &ReviewReceiptFacts) -> (res: bool)
        ensures
            res == self.can_add(*r),
    {
        if !(self.events < usize::MAX && self.completed <= self.events && self.none <= self.events
            && self.unknown <= self.events && self.degraded <= self.events && self.failed <= self.events
            && self.route_applied <= self.events && self.route_degraded <= self.events
            && self.route_failed <= self.events && self.cache_attempts <= self.events
            && self.cache_hits <= self.events && self.latencies.len() <= self.events
            && r.finding_count <= usize::MAX - self.findings && (r.calls as u64) <= u64::MAX - self.calls
            && (r.retries as u64) <= u64::MAX - self.retries && self.cost_status_counts.len() == 9) {
            return false;
        }
        let mut i: usize = 0;
        while i < 9
            invariant
                i <= 9,
                self.cost_status_counts@.len() == 9,
                forall|k: int| 0 <= k < i ==> self.cost_status_counts@[k] <= self.events,
            decreases 9 - i,
        {
            if self.cost_status_counts[i] > self.events {
                return false;
            }
            i = i + 1;
        }
        true
    }

    /// Counts one receipt.
    #[verifier::spinoff_prover]
    #[verifier::rlimit(50)]
    pub fn add(&mut self, r: &ReviewReceiptFacts)
        requires
            old(self).can_add(*r),
        ensures
            final(self).events == old(self).events + 1,
            final(self).completed == old(self).completed + if r.status == ReviewStatus::Completed { 1int } else { 0 },
            final(self).none == old(self).none + if r.status == ReviewStatus::NoFindings { 1int } else { 0 },
            final(self).unknown == old(self).unknown + if r.status == ReviewStatus::Unknown { 1int } else { 0 },
            final(self).degraded == old(self).degraded + if r.status == ReviewStatus::Degraded { 1int } else { 0 },
            final(self).failed == old(self).failed + if r.status == ReviewStatus::Failed { 1int } else { 0 },
            final(self).findings == old(self).findings + r.finding_count,
            final(self).route_applied == old(self).route_applied + if r.route_status == RouteStatus::Applied { 1int } else { 0 },
            final(self).route_degraded == old(self).route_degraded + if r.route_status == RouteStatus::Degraded { 1int } else { 0 },
            final(self).route_failed == old(self).route_failed + if r.route_status == RouteStatus::Failed { 1int } else { 0 },
            final(self).latencies@ == old(self).latencies@.push(r.latency_ms),
            final(self).calls == old(self).calls + r.calls,
            final(self).retries == old(self).retries + r.retries,
            final(self).cache_attempts == old(self).cache_attempts + if r.cache_hit is Some { 1int } else { 0 },
            final(self).cache_hits == old(self).cache_hits + if r.cache_hit == Some(true) { 1int } else { 0 },
            final(self).input_tokens == add_seen(old(self).input_tokens, r.input_tokens),
            final(self).output_tokens == add_seen(old(self).output_tokens, r.output_tokens),
            final(self).additional_input_tokens == add_seen(old(self).additional_input_tokens, r.additional_input_tokens),
            final(self).additional_output_tokens == add_seen(old(self).additional_output_tokens, r.additional_output_tokens),
            final(self).additional_reasoning_tokens == add_seen(old(self).additional_reasoning_tokens, r.additional_reasoning_tokens),
            final(self).cost_status_counts@ == bump(bump(bump(old(self).cost_status_counts@,
                cost_slot(0, r.jev_cost_status)), cost_slot(1, r.codex_cost_status)), cost_slot(2, r.total_cost_status)),
            old(self).totals_agree() ==> final(self).totals_agree(),
    {
        proof {
            let c0 = old(self).cost_status_counts@;
            let s0 = cost_slot(0, r.jev_cost_status);
            let c1 = bump(c0, s0);
            let s1 = cost_slot(1, r.codex_cost_status);
            let c2 = bump(c1, s1);
            let s2 = cost_slot(2, r.total_cost_status);
            assert(0 <= s0 < 9 && 0 <= s1 < 9 && 0 <= s2 < 9);
            assert(c0[s0] <= old(self).events < usize::MAX);
            assert(c1[s1] < usize::MAX) by {
                assert(c1[s1] <= c0[s1] + 1);
            }
            assert(c2[s2] < usize::MAX) by {
                assert(c2[s2] <= c0[s2] + 2);
            }
            if old(self).totals_agree() {
                lemma_bump_part_total(c0, 0, r.jev_cost_status, 0);
                lemma_bump_part_total(c0, 0, r.jev_cost_status, 1);
                lemma_bump_part_total(c0, 0, r.jev_cost_status, 2);
                lemma_bump_part_total(c1, 1, r.codex_cost_status, 0);
                lemma_bump_part_total(c1, 1, r.codex_cost_status, 1);
                lemma_bump_part_total(c1, 1, r.codex_cost_status, 2);
                lemma_bump_part_total(c2, 2, r.total_cost_status, 0);
                lemma_bump_part_total(c2, 2, r.total_cost_status, 1);
                lemma_bump_part_total(c2, 2, r.total_cost_status, 2);
            }
        }
        self.events = self.events + 1;
        match r.status {
            ReviewStatus::Completed => self.completed = self.completed + 1,
            ReviewStatus::NoFindings => self.none = self.none + 1,
            ReviewStatus::Unknown => self.unknown = self.unknown + 1,
            ReviewStatus::Degraded => self.degraded = self.degraded + 1,
            ReviewStatus::Failed => self.failed = self.failed + 1,
        }
        self.findings = self.findings + r.finding_count;
        match r.route_status {
            RouteStatus::Applied => self.route_applied = self.route_applied + 1,
            RouteStatus::Degraded => self.route_degraded = self.route_degraded + 1,
            RouteStatus::Failed => self.route_failed = self.route_failed + 1,
        }
        self.latencies.push(r.latency_ms);
        self.calls = self.calls + r.calls as u64;
        self.retries = self.retries + r.retries as u64;
        match r.cache_hit {
            Some(hit) => {
                self.cache_attempts = self.cache_attempts + 1;
                if hit {
                    self.cache_hits = self.cache_hits + 1;
                }
            },
            None => {},
        }
        self.input_tokens = add_seen_exec(self.input_tokens, r.input_tokens);
        self.output_tokens = add_seen_exec(self.output_tokens, r.output_tokens);
        self.additional_input_tokens = add_seen_exec(self.additional_input_tokens, r.additional_input_tokens);
        self.additional_output_tokens = add_seen_exec(self.additional_output_tokens, r.additional_output_tokens);
        self.additional_reasoning_tokens = add_seen_exec(self.additional_reasoning_tokens, r.additional_reasoning_tokens);
        let a = cost_slot_exec(0, r.jev_cost_status);
        let v = self.cost_status_counts[a];
        self.cost_status_counts.set(a, v + 1);
        let b = cost_slot_exec(1, r.codex_cost_status);
        let v = self.cost_status_counts[b];
        self.cost_status_counts.set(b, v + 1);
        let c = cost_slot_exec(2, r.total_cost_status);
        let v = self.cost_status_counts[c];
        self.cost_status_counts.set(c, v + 1);
    }
}


// ---------------------------------------------------------------------------------------
// Counting a whole file of receipts
// ---------------------------------------------------------------------------------------

/// How many receipts have status `s`.
pub open spec fn count_status(rs: Seq<ReviewReceiptFacts>, s: ReviewStatus) -> nat
    decreases rs.len(),
{
    if rs.len() == 0 { 0 } else { count_status(rs.drop_last(), s) + if rs.last().status == s { 1nat } else { 0 } }
}

/// How many receipts have route status `s`.
pub open spec fn count_route(rs: Seq<ReviewReceiptFacts>, s: RouteStatus) -> nat
    decreases rs.len(),
{
    if rs.len() == 0 { 0 } else { count_route(rs.drop_last(), s) + if rs.last().route_status == s { 1nat } else { 0 } }
}

/// How many receipts consulted the cache (`hit` false) or hit it (`hit` true).
pub open spec fn count_cache(rs: Seq<ReviewReceiptFacts>, hit: bool) -> nat
    decreases rs.len(),
{
    if rs.len() == 0 {
        0
    } else {
        count_cache(rs.drop_last(), hit) + if (hit && rs.last().cache_hit == Some(true))
            || (!hit && rs.last().cache_hit is Some) { 1nat } else { 0 }
    }
}

/// The receipts' findings (`part` 0), judge calls (1) or retries (2), summed.
pub open spec fn sum_part(rs: Seq<ReviewReceiptFacts>, part: int) -> nat
    decreases rs.len(),
{
    if rs.len() == 0 {
        0
    } else {
        let r = rs.last();
        sum_part(rs.drop_last(), part) + if part == 0 { r.finding_count as nat } else if part == 1 { r.calls as nat } else { r.retries as nat }
    }
}

/// A receipt's input (`k` 0), output (1) and additional input (2), output (3) and
/// reasoning (4) tokens.
pub open spec fn token_of(r: ReviewReceiptFacts, k: int) -> Option<u64> {
    if k == 0 {
        r.input_tokens
    } else if k == 1 {
        r.output_tokens
    } else if k == 2 {
        r.additional_input_tokens
    } else if k == 3 {
        r.additional_output_tokens
    } else {
        r.additional_reasoning_tokens
    }
}

/// The saturating token total of kind `k` over the receipts, present once any reported it.
pub open spec fn seen_total(rs: Seq<ReviewReceiptFacts>, k: int) -> Option<u64>
    decreases rs.len(),
{
    if rs.len() == 0 { None } else { add_seen(seen_total(rs.drop_last(), k), token_of(rs.last(), k)) }
}

pub open spec fn latencies_of(rs: Seq<ReviewReceiptFacts>) -> Seq<u64>
    decreases rs.len(),
{
    if rs.len() == 0 { seq![] } else { latencies_of(rs.drop_last()).push(rs.last().latency_ms) }
}

/// The cost-status counters after the receipts.
pub open spec fn cost_counts(rs: Seq<ReviewReceiptFacts>) -> Seq<usize>
    decreases rs.len(),
{
    if rs.len() == 0 {
        Seq::new(9, |i: int| 0usize)
    } else {
        let r = rs.last();
        bump(bump(bump(cost_counts(rs.drop_last()), cost_slot(0, r.jev_cost_status)), cost_slot(1, r.codex_cost_status)),
            cost_slot(2, r.total_cost_status))
    }
}

/// The findings, calls and retries of the receipts fit their counters.
pub open spec fn receipts_fit(rs: Seq<ReviewReceiptFacts>) -> bool {
    &&& sum_part(rs, 0) <= usize::MAX
    &&& sum_part(rs, 1) <= u64::MAX
    &&& sum_part(rs, 2) <= u64::MAX
}

/// `c` holds the statistics of the receipts `rs`.
pub open spec fn counted(c: ReviewCounts, rs: Seq<ReviewReceiptFacts>) -> bool {
    &&& c.totals_agree()
    &&& c.events == rs.len()
    &&& c.completed == count_status(rs, ReviewStatus::Completed)
    &&& c.none == count_status(rs, ReviewStatus::NoFindings)
    &&& c.unknown == count_status(rs, ReviewStatus::Unknown)
    &&& c.degraded == count_status(rs, ReviewStatus::Degraded)
    &&& c.failed == count_status(rs, ReviewStatus::Failed)
    &&& c.findings == sum_part(rs, 0)
    &&& c.route_applied == count_route(rs, RouteStatus::Applied)
    &&& c.route_degraded == count_route(rs, RouteStatus::Degraded)
    &&& c.route_failed == count_route(rs, RouteStatus::Failed)
    &&& c.latencies@ == latencies_of(rs)
    &&& c.calls == sum_part(rs, 1)
    &&& c.retries == sum_part(rs, 2)
    &&& c.cache_attempts == count_cache(rs, false)
    &&& c.cache_hits == count_cache(rs, true)
    &&& c.input_tokens == seen_total(rs, 0)
    &&& c.output_tokens == seen_total(rs, 1)
    &&& c.additional_input_tokens == seen_total(rs, 2)
    &&& c.additional_output_tokens == seen_total(rs, 3)
    &&& c.additional_reasoning_tokens == seen_total(rs, 4)
    &&& c.cost_status_counts@ == cost_counts(rs)
}

proof fn lemma_prefix_sums(rs: Seq<ReviewReceiptFacts>, k: int, part: int)
    requires
        0 <= k <= rs.len(),
    ensures
        sum_part(rs.take(k), part) <= sum_part(rs, part),
    decreases rs.len(),
{
    if k < rs.len() {
        assert(rs.drop_last().take(k) =~= rs.take(k));
        lemma_prefix_sums(rs.drop_last(), k, part);
    } else {
        assert(rs.take(k) =~= rs);
    }
}

/// The statistics of a file of receipts, counted in order: `None` exactly when their
/// findings, calls or retries would overflow the counters. The counts by status, by route
/// status and by each part's cost status all come to the number of receipts.
#[verifier::spinoff_prover]
#[verifier::rlimit(60)]
pub fn count_receipts(rs: &Vec<ReviewReceiptFacts>) -> (res: Option<ReviewCounts>)
    ensures
        res is Some <==> receipts_fit(rs@),
        res matches Some(c) ==> counted(c, rs@),
{
    let mut c = ReviewCounts::new();
    proof {
        assert(rs@.take(0) =~= Seq::<ReviewReceiptFacts>::empty());
        assert(latencies_of(rs@.take(0)) =~= c.latencies@);
    }
    let mut i: usize = 0;
    while i < rs.len()
        invariant
            i <= rs.len(),
            counted(c, rs@.take(i as int)),
        decreases rs.len() - i,
    {
        let r = &rs[i];
        let ghost before = rs@.take(i as int);
        let ghost after = rs@.take(i as int + 1);
        proof {
            assert(after.drop_last() =~= before);
            assert(after.last() == *r);
            assert forall|k: int| 0 <= k < 9 implies c.cost_status_counts@[k] <= c.events by {
                assert(part_total(c.cost_status_counts@, 0) == c.events);
                assert(part_total(c.cost_status_counts@, 1) == c.events);
                assert(part_total(c.cost_status_counts@, 2) == c.events);
            }
        }
        if !c.has_room_for(r) {
            proof {
                lemma_prefix_sums(rs@, i as int + 1, 0);
                lemma_prefix_sums(rs@, i as int + 1, 1);
                lemma_prefix_sums(rs@, i as int + 1, 2);
            }
            return None;
        }
        c.add(r);
        i = i + 1;
    }
    proof {
        assert(rs@.take(i as int) =~= rs@);
    }
    Some(c)
}


impl ReviewCounts {
    /// The 50th and 95th latency percentiles.
    pub fn latency_percentiles(&self) -> (res: (Option<u64>, Option<u64>))
        requires
            self.latencies@.len() * 95 <= usize::MAX,
        ensures
            res.0 == crate::hooks::spec_percentile(self.latencies@, 50),
            res.1 == crate::hooks::spec_percentile(self.latencies@, 95),
    {
        (crate::stats::percentile(self.latencies.as_slice(), 50), crate::stats::percentile(self.latencies.as_slice(), 95))
    }

    /// The non-zero cost-status counts under their `<part>:<status>` keys, in key order.
    pub fn cost_status_table(&self) -> (res: Vec<(String, usize)>)
        requires
            self.cost_status_counts@.len() == 9,
        ensures
            crate::hooks::table_view(res@) == crate::hooks::nonzero_table(crate::hooks::cost_keys(),
                self.cost_status_counts@.map_values(|c: usize| c as nat)),
    {
        let keys: Vec<&'static str> = vec!["codex:available", "codex:unavailable", "codex:unknown", "jev:available",
            "jev:unavailable", "jev:unknown", "total:available", "total:unavailable", "total:unknown"];
        proof {
            assert(keys@.map_values(|l: &'static str| l@) =~= crate::hooks::cost_keys());
        }
        crate::hooks::nonzero_table_exec(&keys, &self.cost_status_counts)
    }
}

} // verus!
