//! Evaluation fixtures and the local keyword baseline they are measured against.

use vstd::prelude::*;

use crate::error::JevxError;
use crate::ranking::{char_alphanumeric, chars_less, chars_lt, is_alphanumeric};
use crate::text::{
    all_ws, ascii_lower, chars_eq, chars_of, contains_chars, contains_seq, eq_ignore_ascii_case,
    eq_ignore_case, string_from_chars, to_ascii_lower, vviews, words, split_whitespace,
    append_chars,
};
use crate::types::SkillRecord;
use crate::decision::is_blank;

verus! {

/// One evaluation case.
#[derive(Debug, Clone)]
pub struct EvaluationFixture {
    pub id: String,
    pub kind: String,
    pub prompt: String,
    pub expected: String,
    pub keywords: Vec<String>,
}

/// What the local ranking predicted for a case.
#[derive(Debug, Clone)]
pub struct LocalRankCaseResult {
    pub prediction: Option<String>,
    pub discovery_ms: u64,
    pub candidate_count: usize,
    pub candidate_miss: bool,
}

// ---------------------------------------------------------------------------------------
// Decimal numbers
// ---------------------------------------------------------------------------------------

pub open spec fn digit_char(d: nat) -> char {
    if d == 0 { '0' } else if d == 1 { '1' } else if d == 2 { '2' } else if d == 3 { '3' }
    else if d == 4 { '4' } else if d == 5 { '5' } else if d == 6 { '6' } else if d == 7 { '7' }
    else if d == 8 { '8' } else { '9' }
}

/// The decimal digits of a number, most significant first.
pub open spec fn decimal(n: nat) -> Seq<char>
    decreases n,
{
    if n < 10 {
        seq![digit_char(n)]
    } else {
        decimal(n / 10).push(digit_char(n % 10))
    }
}

fn digit_of(d: usize) -> (res: char)
    requires
        d < 10,
    ensures
        res == digit_char(d as nat),
{
    if d == 0 { '0' } else if d == 1 { '1' } else if d == 2 { '2' } else if d == 3 { '3' }
    else if d == 4 { '4' } else if d == 5 { '5' } else if d == 6 { '6' } else if d == 7 { '7' }
    else if d == 8 { '8' } else { '9' }
}

/// A number written in decimal.
pub fn decimal_chars(n: usize) -> (res: Vec<char>)
    ensures
        res@ == decimal(n as nat),
    decreases n,
{
    if n < 10 {
        let v = vec![digit_of(n)];
        assert(v@ =~= decimal(n as nat));
        v
    } else {
        let mut v = decimal_chars(n / 10);
        v.push(digit_of(n % 10));
        v
    }
}

// ---------------------------------------------------------------------------------------
// Fixture validation
// ---------------------------------------------------------------------------------------

/// The first required field that is blank, if any.
pub open spec fn missing_field(f: EvaluationFixture) -> Option<Seq<char>> {
    if all_ws(f.id@) {
        Some("id"@)
    } else if all_ws(f.kind@) {
        Some("kind"@)
    } else if all_ws(f.prompt@) {
        Some("prompt"@)
    } else if all_ws(f.expected@) {
        Some("expected"@)
    } else {
        None
    }
}

fn build_message(parts: &Vec<Vec<char>>) -> (res: String)
    ensures
        res@ == crate::text::concat_all(vviews(parts@)),
{
    let mut v: Vec<char> = Vec::new();
    let mut i: usize = 0;
    while i < parts.len()
        invariant
            i <= parts.len(),
            v@ == crate::text::concat_all(vviews(parts@).take(i as int)),
        decreases parts.len() - i,
    {
        append_chars(&mut v, &parts[i]);
        proof {
            assert(vviews(parts@).take(i + 1).drop_last() =~= vviews(parts@).take(i as int));
        }
        i = i + 1;
    }
    proof {
        assert(vviews(parts@).take(i as int) =~= vviews(parts@));
    }
    string_from_chars(&v)
}

/// A fixture must have a non-blank id, kind, prompt and expected answer.
pub fn validate_fixture(fixture: &EvaluationFixture, line_number: usize) -> (res: Result<(), JevxError>)
    ensures
        res is Ok <==> missing_field(*fixture) is None,
        res matches Err(e) ==> e matches JevxError::InvalidInput(m) && m@ == "fixture at line "@
            + decimal(line_number as nat) + " is missing "@ + missing_field(*fixture)->0,
{
    let field: &str = if is_blank(&fixture.id) {
        "id"
    } else if is_blank(&fixture.kind) {
        "kind"
    } else if is_blank(&fixture.prompt) {
        "prompt"
    } else if is_blank(&fixture.expected) {
        "expected"
    } else {
        return Ok(());
    };
    let parts = vec![chars_of("fixture at line "), decimal_chars(line_number), chars_of(" is missing "), chars_of(field)];
    let message = build_message(&parts);
    proof {
        assert(vviews(parts@) =~= seq!["fixture at line "@, decimal(line_number as nat), " is missing "@, field@]);
        crate::text::lemma_concat_all_four("fixture at line "@, decimal(line_number as nat), " is missing "@, field@);
    }
    Err(JevxError::InvalidInput(message))
}

/// The fixtures accepted so far, by ASCII-lowercased id.
pub struct FixtureSet {
    pub ids: Vec<Vec<char>>,
}

pub open spec fn lower_ids_distinct(ids: Seq<Seq<char>>) -> bool {
    forall|i: int, j: int| 0 <= i < j < ids.len() ==> ids[i] != ids[j]
}

impl FixtureSet {
    pub fn new() -> (res: FixtureSet)
        ensures
            res.ids@.len() == 0,
    {
        FixtureSet { ids: Vec::new() }
    }

    /// Accepts the fixture read at a line: it must be valid, and its id, ignoring ASCII
    /// case, must not have been seen before.
    pub fn accept(&mut self, fixture: &EvaluationFixture, line_number: usize) -> (res: Result<(), JevxError>)
        requires
            lower_ids_distinct(vviews(old(self).ids@)),
        ensures
            lower_ids_distinct(vviews(final(self).ids@)),
            missing_field(*fixture) is Some ==> (res is Err && final(self).ids@ == old(self).ids@),
            missing_field(*fixture) is None && vviews(old(self).ids@).contains(ascii_lower(fixture.id@)) ==> (
                res matches Err(e) && e matches JevxError::InvalidInput(m) && m@ == "duplicate fixture id at line "@
                + decimal(line_number as nat) + ": "@ + fixture.id@ && final(self).ids@ == old(self).ids@),
            missing_field(*fixture) is None && !vviews(old(self).ids@).contains(ascii_lower(fixture.id@)) ==> (
                res is Ok && vviews(final(self).ids@) == vviews(old(self).ids@).push(ascii_lower(fixture.id@))),
    {
        validate_fixture(fixture, line_number)?;
        let idc = chars_of(fixture.id.as_str());
        let lower = to_ascii_lower(&idc);
        let mut i: usize = 0;
        while i < self.ids.len()
            invariant
                i <= self.ids.len(),
                self.ids@ == old(self).ids@,
                lower@ == ascii_lower(fixture.id@),
                idc@ == fixture.id@,
                lower_ids_distinct(vviews(old(self).ids@)),
                forall|k: int| 0 <= k < i ==> vviews(self.ids@)[k] != lower@,
            decreases self.ids.len() - i,
        {
            if chars_eq(&self.ids[i], &lower) {
                assert(vviews(self.ids@)[i as int] == lower@);
                let parts = vec![chars_of("duplicate fixture id at line "), decimal_chars(line_number), chars_of(": "), idc];
                let message = build_message(&parts);
                proof {
                    assert(vviews(parts@) =~= seq!["duplicate fixture id at line "@, decimal(line_number as nat), ": "@, fixture.id@]);
                    crate::text::lemma_concat_all_four("duplicate fixture id at line "@, decimal(line_number as nat), ": "@, fixture.id@);
                }
                return Err(JevxError::InvalidInput(message));
            }
            i = i + 1;
        }
        let ghost before = vviews(self.ids@);
        self.ids.push(lower);
        proof {
            assert(vviews(self.ids@) =~= before.push(ascii_lower(fixture.id@)));
            assert(!before.contains(ascii_lower(fixture.id@))) by {
                if before.contains(ascii_lower(fixture.id@)) {
                    let k = choose|k: int| 0 <= k < before.len() && before[k] == ascii_lower(fixture.id@);
                    assert(vviews(old(self).ids@)[k] != lower@);
                }
            }
        }
        Ok(())
    }

    /// A fixture file must hold at least one case.
    pub fn finish(&self) -> (res: Result<(), JevxError>)
        ensures
            res is Ok <==> self.ids@.len() > 0,
            res matches Err(e) ==> e matches JevxError::InvalidInput(m) && m@ == "evaluation fixtures must contain at least one case"@,
    {
        if self.ids.len() == 0 {
            Err(JevxError::invalid_input("evaluation fixtures must contain at least one case"))
        } else {
            Ok(())
        }
    }
}

// ---------------------------------------------------------------------------------------
// Predictions
// ---------------------------------------------------------------------------------------

/// `none` (in any ASCII case) as the expected answer means no skill should be chosen.
pub fn is_none_expected(expected: &str) -> (res: bool)
    ensures
        res == eq_ignore_case(expected@, "none"@),
{
    let e = chars_of(expected);
    let n = chars_of("none");
    eq_ignore_ascii_case(&e, &n)
}

/// No candidate of the local ranking is the expected skill (ignoring ASCII case), when one
/// was expected.
pub open spec fn spec_candidate_miss(candidates: Seq<(i32, SkillRecord)>, expected: Seq<char>) -> bool {
    !eq_ignore_case(expected, "none"@)
        && !(exists|i: int| 0 <= i < candidates.len() && eq_ignore_case((#[trigger] candidates[i]).1.id@, expected))
}

/// The local-rank baseline of one evaluation case: the top candidate is predicted when its
/// score is positive; a miss is an expected skill that is not among the candidates.
pub fn local_rank_case(ranking: &crate::ranking::LocalRanking, expected: &str) -> (res: LocalRankCaseResult)
    ensures
        ({
            let c = ranking.candidates@;
            &&& crate::types::opt_string_view(res.prediction) == (if c.len() > 0 && c[0].0 > 0 { Some(c[0].1.id@) } else { None })
            &&& res.discovery_ms == ranking.discovery_ms
            &&& res.candidate_count == c.len()
            &&& res.candidate_miss == spec_candidate_miss(c, expected@)
        }),
{
    let c = &ranking.candidates;
    let prediction = if c.len() > 0 && c[0].0 > 0 { Some(c[0].1.id.clone()) } else { None };
    let none = is_none_expected(expected);
    let ec = chars_of(expected);
    let mut found = false;
    let mut i: usize = 0;
    while i < c.len()
        invariant
            i <= c.len(),
            ec@ == expected@,
            found <==> exists|k: int| 0 <= k < i && eq_ignore_case((#[trigger] c@[k]).1.id@, expected@),
        decreases c.len() - i,
    {
        let idc = chars_of(c[i].1.id.as_str());
        if eq_ignore_ascii_case(&idc, &ec) {
            found = true;
        }
        i = i + 1;
    }
    LocalRankCaseResult {
        prediction,
        discovery_ms: ranking.discovery_ms,
        candidate_count: c.len(),
        candidate_miss: !none && !found,
    }
}

/// A prediction matches when it names the expected skill (ignoring ASCII case), or when
/// there is none and none was expected.
pub fn prediction_matches(prediction: &Option<String>, expected: &str) -> (res: bool)
    ensures
        res == match prediction {
            Some(p) => !eq_ignore_case(expected@, "none"@) && eq_ignore_case(p@, expected@),
            None => eq_ignore_case(expected@, "none"@),
        },
{
    match prediction {
        Some(p) => {
            let pc = chars_of(p.as_str());
            let ec = chars_of(expected);
            !is_none_expected(expected) && eq_ignore_ascii_case(&pc, &ec)
        },
        None => is_none_expected(expected),
    }
}


// ---------------------------------------------------------------------------------------
// The local keyword baseline
// ---------------------------------------------------------------------------------------

pub open spec fn is_word_char(c: char) -> bool {
    char_alphanumeric(c) || c == '_'
}

pub open spec fn trim_nonword_start(s: Seq<char>) -> Seq<char>
    decreases s.len(),
{
    if s.len() > 0 && !is_word_char(s[0]) {
        trim_nonword_start(s.drop_first())
    } else {
        s
    }
}

pub open spec fn trim_nonword_end(s: Seq<char>) -> Seq<char>
    decreases s.len(),
{
    if s.len() > 0 && !is_word_char(s.last()) {
        trim_nonword_end(s.drop_last())
    } else {
        s
    }
}

/// A token with everything but letters, digits and `_` trimmed from both ends.
pub open spec fn trim_nonword(s: Seq<char>) -> Seq<char> {
    trim_nonword_end(trim_nonword_start(s))
}

fn is_word_character(c: char) -> (res: bool)
    ensures
        res == is_word_char(c),
{
    is_alphanumeric(c) || c == '_'
}

fn trim_nonword_chars(s: &[char]) -> (res: Vec<char>)
    ensures
        res@ == trim_nonword(s@),
{
    let mut i: usize = 0;
    proof {
        assert(s@.skip(0) =~= s@);
    }
    while i < s.len() && !is_word_character(s[i])
        invariant
            i <= s.len(),
            trim_nonword_start(s@) == trim_nonword_start(s@.skip(i as int)),
        decreases s.len() - i,
    {
        proof {
            assert(s@.skip(i as int)[0] == s@[i as int]);
            assert(s@.skip(i as int).drop_first() =~= s@.skip(i + 1));
        }
        i = i + 1;
    }
    proof {
        if i < s.len() {
            assert(s@.skip(i as int)[0] == s@[i as int]);
        }
    }
    let t = crate::text::slice_vec(s, i, s.len());
    proof {
        assert(t@ =~= s@.skip(i as int));
    }
    let mut j: usize = t.len();
    proof {
        assert(t@.take(j as int) =~= t@);
    }
    while j > 0 && !is_word_character(t[j - 1])
        invariant
            j <= t.len(),
            trim_nonword_end(t@) == trim_nonword_end(t@.take(j as int)),
        decreases j,
    {
        proof {
            assert(t@.take(j as int).last() == t@[j - 1]);
            assert(t@.take(j as int).drop_last() =~= t@.take(j - 1));
        }
        j = j - 1;
    }
    proof {
        if j > 0 {
            assert(t@.take(j as int).last() == t@[j - 1]);
        }
    }
    let r = crate::text::slice_vec(&t, 0, j);
    proof {
        assert(r@ =~= t@.take(j as int));
    }
    r
}

pub open spec fn nonempty() -> spec_fn(Seq<char>) -> bool {
    |k: Seq<char>| k.len() > 0
}

/// The candidate keywords of a skill: its lowercased id, then each non-empty trimmed,
/// lowercased word of its description.
pub open spec fn keyword_candidates(id: Seq<char>, description: Seq<char>) -> Seq<Seq<char>> {
    seq![ascii_lower(id)] + words(description).map_values(|w: Seq<char>| ascii_lower(trim_nonword(w))).filter(nonempty())
}

/// A sequence with later repetitions removed.
pub open spec fn dedup(s: Seq<Seq<char>>) -> Seq<Seq<char>>
    decreases s.len(),
{
    if s.len() == 0 {
        seq![]
    } else {
        let d = dedup(s.drop_last());
        if d.contains(s.last()) {
            d
        } else {
            d.push(s.last())
        }
    }
}

/// How many entries of `ks` occur in `text`.
pub open spec fn count_contained(text: Seq<char>, ks: Seq<Seq<char>>) -> nat
    decreases ks.len(),
{
    if ks.len() == 0 {
        0
    } else {
        count_contained(text, ks.drop_last()) + if contains_seq(text, ks.last()) {
            1nat
        } else {
            0nat
        }
    }
}

/// The keyword score of a skill: how many of its distinct keywords occur in the lowercased
/// prompt.
pub open spec fn spec_keyword_score(prompt_lower: Seq<char>, id: Seq<char>, description: Seq<char>) -> nat {
    count_contained(prompt_lower, dedup(keyword_candidates(id, description)))
}

fn contains_vec(v: &Vec<Vec<char>>, x: &Vec<char>) -> (res: bool)
    ensures
        res == vviews(v@).contains(x@),
{
    let mut i: usize = 0;
    while i < v.len()
        invariant
            i <= v.len(),
            forall|k: int| 0 <= k < i ==> vviews(v@)[k] != x@,
        decreases v.len() - i,
    {
        if chars_eq(&v[i], x) {
            assert(vviews(v@)[i as int] == x@);
            return true;
        }
        i = i + 1;
    }
    false
}

fn keyword_candidates_vec(id: &str, description: &str) -> (res: Vec<Vec<char>>)
    ensures
        vviews(res@) == keyword_candidates(id@, description@),
{
    let idc = chars_of(id);
    let mut res: Vec<Vec<char>> = Vec::new();
    res.push(to_ascii_lower(&idc));
    let dc = chars_of(description);
    let ws = split_whitespace(&dc);
    let ghost mapped = words(description@).map_values(|w: Seq<char>| ascii_lower(trim_nonword(w)));
    let mut i: usize = 0;
    proof {
        reveal(Seq::filter);
        assert(mapped.take(0).filter(nonempty()) =~= Seq::<Seq<char>>::empty());
        assert(vviews(res@) =~= seq![ascii_lower(id@)] + mapped.take(0).filter(nonempty()));
    }
    while i < ws.len()
        invariant
            i <= ws.len(),
            vviews(ws@) == words(description@),
            mapped == words(description@).map_values(|w: Seq<char>| ascii_lower(trim_nonword(w))),
            vviews(res@) == seq![ascii_lower(id@)] + mapped.take(i as int).filter(nonempty()),
        decreases ws.len() - i,
    {
        let t = trim_nonword_chars(&ws[i]);
        let k = to_ascii_lower(&t);
        proof {
            assert(vviews(ws@)[i as int] == ws@[i as int]@);
            assert(mapped[i as int] == k@);
            assert(mapped.take(i + 1).drop_last() =~= mapped.take(i as int));
            assert(mapped.take(i + 1).last() == k@);
            reveal(Seq::filter);
        }
        if k.len() > 0 {
            let ghost before = vviews(res@);
            res.push(k);
            proof {
                assert(vviews(res@) =~= before.push(mapped[i as int]));
            }
        }
        i = i + 1;
    }
    proof {
        assert(mapped.take(i as int) =~= mapped);
    }
    res
}

fn dedup_vec(s: &Vec<Vec<char>>) -> (res: Vec<Vec<char>>)
    ensures
        vviews(res@) == dedup(vviews(s@)),
{
    let mut res: Vec<Vec<char>> = Vec::new();
    let mut i: usize = 0;
    while i < s.len()
        invariant
            i <= s.len(),
            vviews(res@) == dedup(vviews(s@).take(i as int)),
        decreases s.len() - i,
    {
        proof {
            assert(vviews(s@).take(i + 1).drop_last() =~= vviews(s@).take(i as int));
            assert(vviews(s@).take(i + 1).last() == s@[i as int]@);
        }
        if !contains_vec(&res, &s[i]) {
            let ghost before = vviews(res@);
            let x = crate::text::slice_vec(&s[i], 0, s[i].len());
            proof {
                assert(x@ =~= s@[i as int]@);
            }
            res.push(x);
            proof {
                assert(vviews(res@) =~= before.push(s@[i as int]@));
            }
        }
        i = i + 1;
    }
    proof {
        assert(vviews(s@).take(i as int) =~= vviews(s@));
    }
    res
}

pub fn keyword_score(prompt_lower: &[char], skill: &SkillRecord) -> (res: usize)
    ensures
        res == spec_keyword_score(prompt_lower@, skill.id@, skill.description@),
{
    let cands = keyword_candidates_vec(skill.id.as_str(), skill.description.as_str());
    let ks = dedup_vec(&cands);
    let mut n: usize = 0;
    let mut i: usize = 0;
    while i < ks.len()
        invariant
            i <= ks.len(),
            n <= i,
            n == count_contained(prompt_lower@, vviews(ks@).take(i as int)),
        decreases ks.len() - i,
    {
        proof {
            assert(vviews(ks@).take(i + 1).drop_last() =~= vviews(ks@).take(i as int));
            assert(vviews(ks@).take(i + 1).last() == ks@[i as int]@);
        }
        if contains_chars(prompt_lower, &ks[i]) {
            n = n + 1;
        }
        i = i + 1;
    }
    proof {
        assert(vviews(ks@).take(i as int) =~= vviews(ks@));
    }
    n
}

/// Entry `a` beats entry `b`: a higher score, or an equal score and a smaller key.
pub open spec fn beats(scores: Seq<nat>, keys: Seq<Seq<char>>, a: int, b: int) -> bool {
    scores[a] > scores[b] || (scores[a] == scores[b] && chars_lt(keys[a], keys[b]))
}

/// The first entry among the first `n` that no earlier entry ties and no entry beats.
pub open spec fn best_of(scores: Seq<nat>, keys: Seq<Seq<char>>, n: nat) -> int
    decreases n,
{
    if n <= 1 {
        0
    } else {
        let b = best_of(scores, keys, (n - 1) as nat);
        if beats(scores, keys, n - 1, b) {
            n - 1
        } else {
            b
        }
    }
}

pub open spec fn keyword_scores(prompt: Seq<char>, skills: Seq<SkillRecord>) -> Seq<nat> {
    Seq::new(skills.len(), |i: int| spec_keyword_score(ascii_lower(prompt), skills[i].id@, skills[i].description@))
}

pub open spec fn id_keys(skills: Seq<SkillRecord>) -> Seq<Seq<char>> {
    Seq::new(skills.len(), |i: int| ascii_lower(skills[i].id@))
}

proof fn lemma_best_of_bound(scores: Seq<nat>, keys: Seq<Seq<char>>, n: nat)
    requires
        n >= 1,
    ensures
        0 <= best_of(scores, keys, n) < n,
    decreases n,
{
    if n > 1 {
        lemma_best_of_bound(scores, keys, (n - 1) as nat);
    }
}

/// The keyword baseline's prediction: the best-scoring skill (ties by lowercased id, then
/// input order) when its score is positive.
pub fn local_keyword_prediction(prompt: &str, skills: &Vec<SkillRecord>) -> (res: Option<String>)
    ensures
        ({
            let sc = keyword_scores(prompt@, skills@);
            let b = best_of(sc, id_keys(skills@), skills@.len());
            &&& (skills@.len() == 0 || sc[b] == 0) ==> res is None
            &&& (skills@.len() > 0 && sc[b] > 0) ==> (res matches Some(id) && id@ == skills@[b].id@)
        }),
{
    if skills.len() == 0 {
        return None;
    }
    let pc = chars_of(prompt);
    let pl = to_ascii_lower(&pc);
    let ghost sc = keyword_scores(prompt@, skills@);
    let ghost ks = id_keys(skills@);
    let mut best: usize = 0;
    let mut best_score = keyword_score(&pl, &skills[0]);
    let ic = chars_of(skills[0].id.as_str());
    let mut best_key = to_ascii_lower(&ic);
    let mut i: usize = 1;
    while i < skills.len()
        invariant
            1 <= i <= skills.len(),
            pl@ == ascii_lower(prompt@),
            sc == keyword_scores(prompt@, skills@),
            ks == id_keys(skills@),
            best == best_of(sc, ks, i as nat),
            best < i,
            best_score == sc[best as int],
            best_key@ == ks[best as int],
        decreases skills.len() - i,
    {
        let s = keyword_score(&pl, &skills[i]);
        let c = chars_of(skills[i].id.as_str());
        let k = to_ascii_lower(&c);
        if s > best_score || (s == best_score && chars_less(&k, &best_key)) {
            best = i;
            best_score = s;
            best_key = k;
        }
        i = i + 1;
    }
    if best_score > 0 {
        Some(skills[best].id.clone())
    } else {
        None
    }
}


// ---------------------------------------------------------------------------------------
// Counting a mode's observations
// ---------------------------------------------------------------------------------------

/// What a mode observed for one case. (Times, tokens and costs, which are averaged or
/// taken as percentiles, are kept by the caller.)
#[derive(Debug, Clone)]
pub struct ObservationFacts {
    pub prediction: Option<String>,
    pub candidate_miss: bool,
    pub error: bool,
    pub fallback: bool,
    pub cache_hit: bool,
    pub retries: u32,
}

/// The counts of a mode over the cases.
#[derive(Debug, Clone, Copy, PartialEq, Eq)]
pub struct ModeCounts {
    pub cases: usize,
    pub correct: usize,
    pub expected_none: usize,
    pub none_correct: usize,
    pub positive_expected: usize,
    pub candidate_misses: usize,
    pub errors: usize,
    pub fallbacks: usize,
    pub cache_hits: usize,
    pub retry_cases: usize,
}

pub open spec fn spec_prediction_matches(prediction: Option<String>, expected: Seq<char>) -> bool {
    match prediction {
        Some(p) => !eq_ignore_case(expected, "none"@) && eq_ignore_case(p@, expected),
        None => eq_ignore_case(expected, "none"@),
    }
}

/// How many of the first `n` cases satisfy `p`.
pub open spec fn count_cases(expected: Seq<String>, obs: Seq<ObservationFacts>, n: nat, p: spec_fn(Seq<char>, ObservationFacts) -> bool) -> nat
    decreases n,
{
    if n == 0 {
        0
    } else {
        count_cases(expected, obs, (n - 1) as nat, p) + if p(expected[n - 1]@, obs[n - 1]) { 1nat } else { 0nat }
    }
}

pub open spec fn is_correct() -> spec_fn(Seq<char>, ObservationFacts) -> bool {
    |e: Seq<char>, o: ObservationFacts| spec_prediction_matches(o.prediction, e)
}

pub open spec fn expects_none() -> spec_fn(Seq<char>, ObservationFacts) -> bool {
    |e: Seq<char>, o: ObservationFacts| eq_ignore_case(e, "none"@)
}

pub open spec fn none_right() -> spec_fn(Seq<char>, ObservationFacts) -> bool {
    |e: Seq<char>, o: ObservationFacts| eq_ignore_case(e, "none"@) && o.prediction is None
}

/// Observation flags by number: 0 candidate miss, 1 error, 2 fallback, 3 cache hit,
/// 4 retried.
pub open spec fn flag(k: int) -> spec_fn(Seq<char>, ObservationFacts) -> bool {
    |e: Seq<char>, o: ObservationFacts| if k == 0 { o.candidate_miss } else if k == 1 { o.error }
        else if k == 2 { o.fallback } else if k == 3 { o.cache_hit } else { o.retries > 0 }
}

/// Counts a mode's observations against the expected answers. The cases are the expected
/// answers; correctness pairs each answer with the observation at its place (as far as both
/// lists go), and the flags count over the observations. Candidate misses count only when
/// the mode reports them.
pub fn summarize_counts(expected: &Vec<String>, observations: &Vec<ObservationFacts>, include_candidate_miss: bool) -> (res: ModeCounts)
    ensures
        ({
            let e = expected@;
            let o = observations@;
            let n = e.len();
            let m = o.len();
            let z = if n <= m { n } else { m };
            &&& res.cases == n
            &&& res.correct == count_cases(e, o, z, is_correct())
            &&& res.expected_none == count_cases(e, o, n, expects_none())
            &&& res.none_correct == count_cases(e, o, z, none_right())
            &&& res.positive_expected == n - count_cases(e, o, n, expects_none())
            &&& res.candidate_misses == (if include_candidate_miss { count_cases(e, o, m, flag(0)) } else { 0 })
            &&& res.errors == count_cases(e, o, m, flag(1))
            &&& res.fallbacks == count_cases(e, o, m, flag(2))
            &&& res.cache_hits == count_cases(e, o, m, flag(3))
            &&& res.retry_cases == count_cases(e, o, m, flag(4))
        }),
{
    let ghost e = expected@;
    let ghost o = observations@;
    let paired: usize = if expected.len() <= observations.len() { expected.len() } else { observations.len() };
    let mut correct: usize = 0;
    let mut none_correct: usize = 0;
    let mut i: usize = 0;
    while i < paired
        invariant
            e == expected@,
            o == observations@,
            paired <= e.len() && paired <= o.len(),
            i <= paired,
            correct == count_cases(e, o, i as nat, is_correct()),
            none_correct == count_cases(e, o, i as nat, none_right()),
            correct <= i && none_correct <= i,
        decreases paired - i,
    {
        let ob = &observations[i];
        let ex = expected[i].as_str();
        if prediction_matches(&ob.prediction, ex) {
            correct = correct + 1;
        }
        if is_none_expected(ex) && ob.prediction.is_none() {
            none_correct = none_correct + 1;
        }
        i = i + 1;
    }
    let mut expected_none: usize = 0;
    let mut i: usize = 0;
    while i < expected.len()
        invariant
            e == expected@,
            i <= e.len(),
            expected_none == count_cases(e, o, i as nat, expects_none()),
            expected_none <= i,
        decreases e.len() - i,
    {
        if is_none_expected(expected[i].as_str()) {
            expected_none = expected_none + 1;
        }
        i = i + 1;
    }
    let mut misses: usize = 0;
    let mut errors: usize = 0;
    let mut fallbacks: usize = 0;
    let mut cache_hits: usize = 0;
    let mut retry_cases: usize = 0;
    let mut i: usize = 0;
    while i < observations.len()
        invariant
            o == observations@,
            i <= o.len(),
            misses == count_cases(e, o, i as nat, flag(0)),
            errors == count_cases(e, o, i as nat, flag(1)),
            fallbacks == count_cases(e, o, i as nat, flag(2)),
            cache_hits == count_cases(e, o, i as nat, flag(3)),
            retry_cases == count_cases(e, o, i as nat, flag(4)),
            misses <= i && errors <= i && fallbacks <= i && cache_hits <= i && retry_cases <= i,
        decreases o.len() - i,
    {
        let ob = &observations[i];
        if ob.candidate_miss {
            misses = misses + 1;
        }
        if ob.error {
            errors = errors + 1;
        }
        if ob.fallback {
            fallbacks = fallbacks + 1;
        }
        if ob.cache_hit {
            cache_hits = cache_hits + 1;
        }
        if ob.retries > 0 {
            retry_cases = retry_cases + 1;
        }
        i = i + 1;
    }
    ModeCounts {
        cases: expected.len(),
        correct,
        expected_none,
        none_correct,
        positive_expected: expected.len() - expected_none,
        candidate_misses: if include_candidate_miss { misses } else { 0 },
        errors,
        fallbacks,
        cache_hits,
        retry_cases,
    }
}

} // verus!
