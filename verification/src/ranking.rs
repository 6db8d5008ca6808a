//! Local ranking of skills against a prompt, and the codes a suggestion reports.

use vstd::prelude::*;

use crate::decision::{DecisionStatus, FallbackReason};
use crate::error::JevxError;
use crate::text::{
    append_chars, ascii_lower, chars_eq, chars_of, contains_chars, contains_seq, occurs_at,
    eq_ignore_ascii_case, eq_ignore_case, eq_lit, lemma_skip_first, slice_vec, string_from_chars,
    to_ascii_lower, vviews,
};
use crate::types::{skill_view, CandidateDecision, SkillRecord};

verus! {

// ---------------------------------------------------------------------------------------
// Unicode case folding and character classes (std)
// ---------------------------------------------------------------------------------------

/// What `char::to_lowercase` yields for a character.
pub uninterp spec fn char_lowercase(c: char) -> Seq<char>;

/// Whether `char::is_alphanumeric` holds of a character.
pub uninterp spec fn char_alphanumeric(c: char) -> bool;

/// `char::to_lowercase`, collected: the Unicode lowercase mapping of `c`, a function of `c`
/// alone. On ASCII it is the ASCII lowercase (`A`-`Z` to `a`-`z`, the rest unchanged); the
/// rest of the mapping is not stated.
#[verifier::external_body]
fn lowercase_chars(c: char) -> (res: Vec<char>)
    ensures
        res@ == char_lowercase(c),
        (c as u32) < 128 ==> res@ == seq![crate::text::lower_char(c)],
{
    c.to_lowercase().collect()
}

/// `char::is_alphanumeric`: Unicode `Alphabetic` or `Numeric`, a function of `c` alone. On
/// ASCII it holds of the letters and digits only; the rest is not stated.
#[verifier::external_body]
pub fn is_alphanumeric(c: char) -> (res: bool)
    ensures
        res == char_alphanumeric(c),
        (c as u32) < 128 ==> (res <==> (('a' <= c && c <= 'z') || ('A' <= c && c <= 'Z') || ('0' <= c && c <= '9'))),
{
    c.is_alphanumeric()
}

// ---------------------------------------------------------------------------------------
// Measured time (std)
// ---------------------------------------------------------------------------------------

/// `std::time::Instant`, a point on the monotonic clock, carried through unchanged.
#[verifier::external_type_specification]
#[verifier::external_body]
pub struct ExInstant(std::time::Instant);

/// `Instant::now`: the current time. Nothing is stated of it: it depends on the clock.
#[verifier::external_body]
fn clock_now() -> (res: std::time::Instant)
{
    std::time::Instant::now()
}

/// `Instant::elapsed` in whole milliseconds, `u64::MAX` past that width. Nothing is stated
/// of it: it depends on the clock.
#[verifier::external_body]
fn elapsed_ms_since(started: &std::time::Instant) -> (res: u64)
{
    u64::try_from(started.elapsed().as_millis()).unwrap_or(u64::MAX)
}

// ---------------------------------------------------------------------------------------
// Normalisation and tokens
// ---------------------------------------------------------------------------------------

/// Every character replaced by its lowercase mapping.
pub open spec fn lower_all(s: Seq<char>) -> Seq<char>
    decreases s.len(),
{
    if s.len() == 0 {
        seq![]
    } else {
        lower_all(s.drop_last()) + char_lowercase(s.last())
    }
}

pub fn normalize_chars(s: &[char]) -> (res: Vec<char>)
    ensures
        res@ == lower_all(s@),
{
    let mut res: Vec<char> = Vec::new();
    let mut i: usize = 0;
    while i < s.len()
        invariant
            i <= s.len(),
            res@ == lower_all(s@.take(i as int)),
        decreases s.len() - i,
    {
        let l = lowercase_chars(s[i]);
        let mut k: usize = 0;
        let ghost before = res@;
        while k < l.len()
            invariant
                k <= l.len(),
                res@ == before + l@.take(k as int),
            decreases l.len() - k,
        {
            res.push(l[k]);
            k = k + 1;
            proof {
                assert(l@.take(k as int) =~= l@.take(k - 1).push(l@[k - 1]));
            }
        }
        proof {
            assert(s@.take(i + 1).drop_last() =~= s@.take(i as int));
            assert(l@.take(k as int) =~= l@);
        }
        i = i + 1;
    }
    proof {
        assert(s@.take(i as int) =~= s@);
    }
    res
}

/// Runs of alphanumeric characters, `cur` being the run collected so far.
pub open spec fn runs_acc(s: Seq<char>, cur: Seq<char>) -> Seq<Seq<char>>
    decreases s.len(),
{
    if s.len() == 0 {
        if cur.len() > 0 {
            seq![cur]
        } else {
            seq![]
        }
    } else if char_alphanumeric(s[0]) {
        runs_acc(s.drop_first(), cur.push(s[0]))
    } else {
        (if cur.len() > 0 {
            seq![cur]
        } else {
            seq![]
        }) + runs_acc(s.drop_first(), seq![])
    }
}

/// The tokens of a text: its maximal alphanumeric runs, each normalised.
pub open spec fn spec_tokens(s: Seq<char>) -> Seq<Seq<char>> {
    runs_acc(s, seq![]).map_values(|t: Seq<char>| lower_all(t))
}

fn alnum_runs(s: &[char]) -> (res: Vec<Vec<char>>)
    ensures
        vviews(res@) == runs_acc(s@, seq![]),
{
    let mut res: Vec<Vec<char>> = Vec::new();
    let mut cur: Vec<char> = Vec::new();
    let mut i: usize = 0;
    proof {
        assert(s@.skip(0) =~= s@);
        assert(vviews(res@) + runs_acc(s@, cur@) =~= runs_acc(s@, cur@));
    }
    while i < s.len()
        invariant
            i <= s.len(),
            vviews(res@) + runs_acc(s@.skip(i as int), cur@) == runs_acc(s@, seq![]),
        decreases s.len() - i,
    {
        proof {
            lemma_skip_first(s@, i as int);
        }
        if !is_alphanumeric(s[i]) {
            if cur.len() > 0 {
                let ghost old_res = vviews(res@);
                let ghost old_cur = cur@;
                res.push(cur);
                cur = Vec::new();
                proof {
                    assert(vviews(res@) =~= old_res + seq![old_cur]);
                    assert(old_res + seq![old_cur] + runs_acc(s@.skip(i + 1), seq![])
                        =~= old_res + (seq![old_cur] + runs_acc(s@.skip(i + 1), seq![])));
                }
            } else {
                proof {
                    assert(seq![] + runs_acc(s@.skip(i + 1), seq![]) =~= runs_acc(
                        s@.skip(i + 1),
                        seq![],
                    ));
                    assert(cur@ =~= seq![]);
                }
            }
        } else {
            cur.push(s[i]);
        }
        i = i + 1;
    }
    proof {
        assert(s@.skip(i as int).len() == 0);
    }
    if cur.len() > 0 {
        let ghost before = vviews(res@);
        res.push(cur);
        proof {
            assert(vviews(res@) =~= before + runs_acc(s@.skip(i as int), cur@));
        }
    } else {
        proof {
            assert(vviews(res@) =~= vviews(res@) + runs_acc(s@.skip(i as int), cur@));
        }
    }
    res
}

pub fn tokens(s: &[char]) -> (res: Vec<Vec<char>>)
    ensures
        vviews(res@) == spec_tokens(s@),
{
    let runs = alnum_runs(s);
    let mut res: Vec<Vec<char>> = Vec::new();
    let mut i: usize = 0;
    while i < runs.len()
        invariant
            i <= runs.len(),
            vviews(runs@) == runs_acc(s@, seq![]),
            vviews(res@) == spec_tokens(s@).take(i as int),
        decreases runs.len() - i,
    {
        let t = normalize_chars(&runs[i]);
        let ghost before = vviews(res@);
        res.push(t);
        proof {
            assert(vviews(runs@)[i as int] == runs@[i as int]@);
            assert(vviews(runs@).len() == runs@.len());
            assert(spec_tokens(s@)[i as int] == lower_all(runs_acc(s@, seq![])[i as int]));
            assert(vviews(res@) =~= before.push(t@));
            assert(vviews(res@) =~= spec_tokens(s@).take(i + 1));
        }
        i = i + 1;
    }
    proof {
        assert(spec_tokens(s@).take(i as int) =~= spec_tokens(s@));
    }
    res
}

// ---------------------------------------------------------------------------------------
// The local score
// ---------------------------------------------------------------------------------------

/// How many entries of `q` (counted with repetition) occur in `set`.
pub open spec fn count_members(q: Seq<Seq<char>>, set: Seq<Seq<char>>) -> nat
    decreases q.len(),
{
    if q.len() == 0 {
        0
    } else {
        count_members(q.drop_last(), set) + if set.contains(q.last()) {
            1nat
        } else {
            0nat
        }
    }
}

fn contains_token(set: &Vec<Vec<char>>, t: &Vec<char>) -> (res: bool)
    ensures
        res == vviews(set@).contains(t@),
{
    let mut i: usize = 0;
    while i < set.len()
        invariant
            i <= set.len(),
            forall|k: int| 0 <= k < i ==> vviews(set@)[k] != t@,
        decreases set.len() - i,
    {
        if chars_eq(&set[i], t) {
            assert(vviews(set@)[i as int] == t@);
            return true;
        }
        i = i + 1;
    }
    false
}

fn count_members_exec(q: &Vec<Vec<char>>, set: &Vec<Vec<char>>) -> (res: usize)
    ensures
        res == count_members(vviews(q@), vviews(set@)),
{
    let mut n: usize = 0;
    let mut i: usize = 0;
    while i < q.len()
        invariant
            i <= q.len(),
            n <= i,
            n == count_members(vviews(q@).take(i as int), vviews(set@)),
        decreases q.len() - i,
    {
        proof {
            assert(vviews(q@).take(i + 1).drop_last() =~= vviews(q@).take(i as int));
        }
        if contains_token(set, &q[i]) {
            n = n + 1;
        }
        i = i + 1;
    }
    proof {
        assert(vviews(q@).take(i as int) =~= vviews(q@));
    }
    n
}

/// The adjacent pairs of a sequence.
pub open spec fn bigrams(s: Seq<char>) -> Seq<(char, char)> {
    if s.len() < 2 {
        seq![]
    } else {
        Seq::new((s.len() - 1) as nat, |i: int| (s[i], s[i + 1]))
    }
}

/// How many adjacent pairs of `l` (counted with repetition) are pairs of `r`.
pub open spec fn count_pairs(l: Seq<(char, char)>, r: Seq<(char, char)>) -> nat
    decreases l.len(),
{
    if l.len() == 0 {
        0
    } else {
        count_pairs(l.drop_last(), r) + if r.contains(l.last()) {
            1nat
        } else {
            0nat
        }
    }
}

/// Bigram overlap of the normalised texts; 0 when either has fewer than two characters.
pub open spec fn spec_bigram_overlap(left: Seq<char>, right: Seq<char>) -> nat {
    let l = lower_all(left);
    let r = lower_all(right);
    if l.len() < 2 || r.len() < 2 {
        0
    } else {
        count_pairs(bigrams(l), bigrams(r))
    }
}

fn has_pair(r: &Vec<char>, a: char, b: char) -> (res: bool)
    ensures
        res == bigrams(r@).contains((a, b)),
{
    if r.len() < 2 {
        return false;
    }
    let mut j: usize = 0;
    while j + 1 < r.len()
        invariant
            r.len() >= 2,
            j + 1 <= r.len(),
            forall|k: int| 0 <= k < j ==> bigrams(r@)[k] != (a, b),
        decreases r.len() - j,
    {
        if r[j] == a && r[j + 1] == b {
            assert(bigrams(r@)[j as int] == (a, b));
            return true;
        }
        j = j + 1;
    }
    false
}

fn bigram_overlap(left: &[char], right: &[char]) -> (res: usize)
    ensures
        res == spec_bigram_overlap(left@, right@),
{
    let l = normalize_chars(left);
    let r = normalize_chars(right);
    if l.len() < 2 || r.len() < 2 {
        return 0;
    }
    let ghost lb = bigrams(l@);
    let ghost rb = bigrams(r@);
    let mut n: usize = 0;
    let mut i: usize = 0;
    while i + 1 < l.len()
        invariant
            l.len() >= 2,
            r.len() >= 2,
            lb == bigrams(l@),
            rb == bigrams(r@),
            i + 1 <= l.len(),
            n <= i,
            n == count_pairs(lb.take(i as int), rb),
        decreases l.len() - i,
    {
        proof {
            assert(lb.take(i + 1).drop_last() =~= lb.take(i as int));
            assert(lb[i as int] == (l@[i as int], l@[i + 1]));
        }
        if has_pair(&r, l[i], l[i + 1]) {
            n = n + 1;
        }
        i = i + 1;
    }
    proof {
        assert(lb.take(i as int) =~= lb);
    }
    n
}

/// The local score of a skill for a query: exact name match 1000, name containment 100,
/// description containment 60, 20 per query token among the name's tokens, 5 per query
/// token among the description's, and 3 per shared bigram of query and name.
pub open spec fn spec_local_score(query: Seq<char>, name: Seq<char>, description: Seq<char>) -> int {
    let q = lower_all(query);
    let n = lower_all(name);
    let d = lower_all(description);
    let qt = spec_tokens(query);
    (if q == n {
        1000int
    } else {
        0
    }) + (if contains_seq(q, n) || contains_seq(n, q) {
        100int
    } else {
        0
    }) + (if contains_seq(d, q) {
        60int
    } else {
        0
    }) + 20 * count_members(qt, spec_tokens(name)) + 5 * count_members(qt, spec_tokens(description))
        + 3 * spec_bigram_overlap(query, name)
}

/// What the parts of the local score guarantee, whatever the rest of the skill: a name
/// that contains the query, or is contained in it (ignoring case), scores at least 100,
/// whichever of the two contains the other; a name equal to the query (ignoring case)
/// scores at least 1100; a description that contains the query scores at least 60; and no
/// score is negative.
pub proof fn lemma_local_score_containment(query: Seq<char>, name: Seq<char>, description: Seq<char>)
    ensures
        spec_local_score(query, name, description) >= 0,
        contains_seq(lower_all(name), lower_all(query)) ==> spec_local_score(query, name, description) >= 100,
        contains_seq(lower_all(query), lower_all(name)) ==> spec_local_score(query, name, description) >= 100,
        lower_all(query) == lower_all(name) ==> spec_local_score(query, name, description) >= 1100,
        contains_seq(lower_all(description), lower_all(query)) ==> spec_local_score(query, name, description) >= 60,
{
    let q = lower_all(query);
    if q == lower_all(name) {
        assert(q.subrange(0, q.len() as int) =~= q);
        assert(occurs_at(q, q, 0));
    }
}

/// The local score, computed wide enough never to overflow.
pub fn local_score_wide(query: &str, skill: &SkillRecord) -> (res: u128)
    ensures
        res == spec_local_score(query@, skill.name@, skill.description@),
{
    let qc = chars_of(query);
    let nc = chars_of(skill.name.as_str());
    let dc = chars_of(skill.description.as_str());
    let q = normalize_chars(&qc);
    let n = normalize_chars(&nc);
    let d = normalize_chars(&dc);
    let mut score: u128 = 0;
    if chars_eq(&q, &n) {
        score = score + 1000;
    }
    if contains_chars(&q, &n) || contains_chars(&n, &q) {
        score = score + 100;
    }
    if contains_chars(&d, &q) {
        score = score + 60;
    }
    let qt = tokens(&qc);
    let nt = tokens(&nc);
    let dt = tokens(&dc);
    let a = count_members_exec(&qt, &nt);
    let b = count_members_exec(&qt, &dt);
    let c = bigram_overlap(&qc, &nc);
    score = score + 20 * (a as u128) + 5 * (b as u128) + 3 * (c as u128);
    score
}

/// The local score of a skill for a query, as the ranking stores it.
pub fn local_score(query: &str, skill: &SkillRecord) -> (res: i32)
    requires
        spec_local_score(query@, skill.name@, skill.description@) <= i32::MAX,
    ensures
        res == spec_local_score(query@, skill.name@, skill.description@),
{
    let s = local_score_wide(query, skill);
    s as i32
}

/// The local score when it fits the stored width; `None` when it does not.
pub fn try_local_score(query: &str, skill: &SkillRecord) -> (res: Option<i32>)
    ensures
        spec_local_score(query@, skill.name@, skill.description@) <= i32::MAX <==> res is Some,
        res matches Some(s) ==> s == spec_local_score(query@, skill.name@, skill.description@),
{
    let s = local_score_wide(query, skill);
    if s <= 2147483647u128 {
        Some(local_score(query, skill))
    } else {
        None
    }
}


// ---------------------------------------------------------------------------------------
// Ranking: score descending, then ASCII-lowercased name ascending, stable
// ---------------------------------------------------------------------------------------

/// Lexicographic order on character codes (the order of the UTF-8 encodings).
pub open spec fn chars_lt(a: Seq<char>, b: Seq<char>) -> bool
    decreases a.len(),
{
    if a.len() == 0 {
        b.len() > 0
    } else if b.len() == 0 {
        false
    } else if a[0] != b[0] {
        (a[0] as u32) < (b[0] as u32)
    } else {
        chars_lt(a.drop_first(), b.drop_first())
    }
}

proof fn lemma_chars_lt_skip(a: Seq<char>, b: Seq<char>, i: int)
    requires
        0 <= i <= a.len(),
        i <= b.len(),
        forall|k: int| 0 <= k < i ==> a[k] == b[k],
    ensures
        chars_lt(a, b) == chars_lt(a.skip(i), b.skip(i)),
    decreases i,
{
    if i > 0 {
        assert(a[0] == b[0]);
        assert forall|k: int| 0 <= k < i - 1 implies a.drop_first()[k] == b.drop_first()[k] by {
            assert(a[k + 1] == b[k + 1]);
        }
        lemma_chars_lt_skip(a.drop_first(), b.drop_first(), i - 1);
        assert(a.drop_first().skip(i - 1) =~= a.skip(i));
        assert(b.drop_first().skip(i - 1) =~= b.skip(i));
    } else {
        assert(a.skip(0) =~= a);
        assert(b.skip(0) =~= b);
    }
}

pub fn chars_less(a: &[char], b: &[char]) -> (res: bool)
    ensures
        res == chars_lt(a@, b@),
{
    let mut i: usize = 0;
    while i < a.len() && i < b.len() && a[i] == b[i]
        invariant
            i <= a.len(),
            i <= b.len(),
            forall|k: int| 0 <= k < i ==> a@[k] == b@[k],
        decreases a.len() - i,
    {
        i = i + 1;
    }
    proof {
        lemma_chars_lt_skip(a@, b@, i as int);
    }
    if i == a.len() {
        i < b.len()
    } else if i == b.len() {
        false
    } else {
        proof {
            assert(a@.skip(i as int)[0] == a@[i as int]);
            assert(b@.skip(i as int)[0] == b@[i as int]);
        }
        (a[i] as u32) < (b[i] as u32)
    }
}

/// Entry `a` ranks strictly before entry `b`.
pub open spec fn ranks_before(scores: Seq<i32>, keys: Seq<Seq<char>>, a: int, b: int) -> bool {
    scores[a] > scores[b] || (scores[a] == scores[b] && chars_lt(keys[a], keys[b]))
}

/// Where a stable insertion puts `x` into the ranked list `l`: before the first entry that
/// `x` ranks before.
pub open spec fn insert_pos(scores: Seq<i32>, keys: Seq<Seq<char>>, l: Seq<usize>, x: usize) -> int
    decreases l.len(),
{
    if l.len() == 0 {
        0
    } else if ranks_before(scores, keys, x as int, l[0] as int) {
        0
    } else {
        1 + insert_pos(scores, keys, l.drop_first(), x)
    }
}

/// The stable ranking of the first `n` entries, as a list of entry indexes.
pub open spec fn ranked(scores: Seq<i32>, keys: Seq<Seq<char>>, n: nat) -> Seq<usize>
    decreases n,
{
    if n == 0 {
        seq![]
    } else {
        let l = ranked(scores, keys, (n - 1) as nat);
        l.insert(insert_pos(scores, keys, l, (n - 1) as usize), (n - 1) as usize)
    }
}

proof fn lemma_insert_pos_bounds(scores: Seq<i32>, keys: Seq<Seq<char>>, l: Seq<usize>, x: usize)
    ensures
        0 <= insert_pos(scores, keys, l, x) <= l.len(),
    decreases l.len(),
{
    if l.len() > 0 {
        lemma_insert_pos_bounds(scores, keys, l.drop_first(), x);
    }
}

proof fn lemma_insert_pos_skip(scores: Seq<i32>, keys: Seq<Seq<char>>, l: Seq<usize>, x: usize, j: int)
    requires
        0 <= j <= l.len(),
        forall|k: int| 0 <= k < j ==> !ranks_before(scores, keys, x as int, #[trigger] l[k] as int),
    ensures
        insert_pos(scores, keys, l, x) == j + insert_pos(scores, keys, l.skip(j), x),
    decreases j,
{
    if j > 0 {
        assert(!ranks_before(scores, keys, x as int, l[0] as int));
        assert forall|k: int| 0 <= k < j - 1 implies !ranks_before(
            scores,
            keys,
            x as int,
            #[trigger] l.drop_first()[k] as int,
        ) by {
            assert(l.drop_first()[k] == l[k + 1]);
        }
        lemma_insert_pos_skip(scores, keys, l.drop_first(), x, j - 1);
        assert(l.drop_first().skip(j - 1) =~= l.skip(j));
    } else {
        assert(l.skip(0) =~= l);
    }
}

proof fn lemma_ranked_len(scores: Seq<i32>, keys: Seq<Seq<char>>, n: nat)
    ensures
        ranked(scores, keys, n).len() == n,
        forall|k: int| 0 <= k < n ==> (#[trigger] ranked(scores, keys, n)[k]) < n,
    decreases n,
{
    if n > 0 {
        let l = ranked(scores, keys, (n - 1) as nat);
        lemma_ranked_len(scores, keys, (n - 1) as nat);
        lemma_insert_pos_bounds(scores, keys, l, (n - 1) as usize);
        let p = insert_pos(scores, keys, l, (n - 1) as usize);
        assert forall|k: int| 0 <= k < n implies (#[trigger] ranked(scores, keys, n)[k]) < n by {
            if k < p {
                assert(ranked(scores, keys, n)[k] == l[k]);
            } else if k > p {
                assert(ranked(scores, keys, n)[k] == l[k - 1]);
            }
        }
    }
}

proof fn lemma_chars_lt_asym(a: Seq<char>, b: Seq<char>)
    ensures
        chars_lt(a, b) ==> !chars_lt(b, a),
    decreases a.len(),
{
    if a.len() > 0 && b.len() > 0 && a[0] == b[0] {
        lemma_chars_lt_asym(a.drop_first(), b.drop_first());
    }
}

proof fn lemma_chars_lt_trans(a: Seq<char>, b: Seq<char>, c: Seq<char>)
    ensures
        chars_lt(a, b) && chars_lt(b, c) ==> chars_lt(a, c),
    decreases a.len(),
{
    if a.len() > 0 && b.len() > 0 && c.len() > 0 {
        lemma_chars_lt_trans(a.drop_first(), b.drop_first(), c.drop_first());
    }
}

/// Ranking before is a strict order: never both ways, and carried through.
proof fn lemma_ranks_before_order(scores: Seq<i32>, keys: Seq<Seq<char>>, a: int, b: int, c: int)
    ensures
        ranks_before(scores, keys, a, b) ==> !ranks_before(scores, keys, b, a),
        ranks_before(scores, keys, a, b) && ranks_before(scores, keys, b, c) ==> ranks_before(scores, keys, a, c),
{
    lemma_chars_lt_asym(keys[a], keys[b]);
    lemma_chars_lt_trans(keys[a], keys[b], keys[c]);
}

proof fn lemma_insert_pos_facts(scores: Seq<i32>, keys: Seq<Seq<char>>, l: Seq<usize>, x: usize)
    ensures
        0 <= insert_pos(scores, keys, l, x) <= l.len(),
        forall|m: int| 0 <= m < insert_pos(scores, keys, l, x) ==> !ranks_before(scores, keys, x as int, #[trigger] l[m] as int),
        insert_pos(scores, keys, l, x) < l.len() ==> ranks_before(scores, keys, x as int, l[insert_pos(scores, keys, l, x)] as int),
    decreases l.len(),
{
    if l.len() > 0 && !ranks_before(scores, keys, x as int, l[0] as int) {
        let t = l.drop_first();
        lemma_insert_pos_facts(scores, keys, t, x);
        assert forall|m: int| 0 <= m < insert_pos(scores, keys, l, x) implies !ranks_before(scores, keys, x as int, #[trigger] l[m] as int) by {
            if m > 0 {
                assert(l[m] == t[m - 1]);
            }
        }
        if insert_pos(scores, keys, l, x) < l.len() {
            assert(l[insert_pos(scores, keys, l, x)] == t[insert_pos(scores, keys, t, x)]);
        }
    }
}

/// The ranking lists each of the first `n` entries exactly once, and no entry ranks before
/// one listed ahead of it.
pub proof fn lemma_ranked_sorted_permutation(scores: Seq<i32>, keys: Seq<Seq<char>>, n: nat)
    requires
        n <= usize::MAX,
    ensures
        ranked(scores, keys, n).len() == n,
        forall|k: int| 0 <= k < n ==> (#[trigger] ranked(scores, keys, n)[k]) < n,
        forall|k: int, l: int| 0 <= k < l < n ==> #[trigger] ranked(scores, keys, n)[k] != #[trigger] ranked(scores, keys, n)[l],
        forall|k: int, l: int| 0 <= k < l < n ==> !ranks_before(scores, keys,
            #[trigger] ranked(scores, keys, n)[l] as int, #[trigger] ranked(scores, keys, n)[k] as int),
    decreases n,
{
    lemma_ranked_len(scores, keys, n);
    if n > 0 {
        let q = (n - 1) as nat;
        lemma_ranked_sorted_permutation(scores, keys, q);
        let l = ranked(scores, keys, q);
        let x = (n - 1) as usize;
        lemma_insert_pos_facts(scores, keys, l, x);
        let p = insert_pos(scores, keys, l, x);
        let out = l.insert(p, x);
        assert(ranked(scores, keys, n) == out);
        assert forall|k: int, m: int| 0 <= k < m < n implies #[trigger] out[k] != #[trigger] out[m] by {
            if k < p {
                assert(out[k] == l[k]);
            } else if k > p {
                assert(out[k] == l[k - 1]);
            }
            if m < p {
                assert(out[m] == l[m]);
            } else if m > p {
                assert(out[m] == l[m - 1]);
            }
        }
        assert forall|k: int, m: int| 0 <= k < m < n implies !ranks_before(scores, keys, #[trigger] out[m] as int, #[trigger] out[k] as int) by {
            if k < p {
                assert(out[k] == l[k]);
                if m < p {
                    assert(out[m] == l[m]);
                } else if m == p {
                    assert(out[m] == x);
                } else {
                    assert(out[m] == l[m - 1]);
                    if k < m - 1 {
                        assert(!ranks_before(scores, keys, l[m - 1] as int, l[k] as int));
                    }
                }
            } else if k == p {
                assert(out[k] == x);
                assert(out[m] == l[m - 1]);
                assert(ranks_before(scores, keys, x as int, l[p] as int));
                if m - 1 > p {
                    assert(!ranks_before(scores, keys, l[m - 1] as int, l[p] as int));
                }
                lemma_ranks_before_order(scores, keys, l[m - 1] as int, x as int, l[p] as int);
            } else {
                assert(out[k] == l[k - 1]);
                assert(out[m] == l[m - 1]);
            }
        }
    }
}

/// The ranking order of the first `n` entries, computed by stable insertion.
fn rank_order(scores: &Vec<i32>, keys: &Vec<Vec<char>>) -> (res: Vec<usize>)
    requires
        scores.len() == keys.len(),
    ensures
        res@ == ranked(scores@, vviews(keys@), scores.len() as nat),
{
    let ghost ks = vviews(keys@);
    let mut order: Vec<usize> = Vec::new();
    let mut i: usize = 0;
    while i < scores.len()
        invariant
            scores.len() == keys.len(),
            ks == vviews(keys@),
            i <= scores.len(),
            order@ == ranked(scores@, ks, i as nat),
        decreases scores.len() - i,
    {
        proof {
            lemma_ranked_len(scores@, ks, i as nat);
        }
        let mut j: usize = 0;
        while j < order.len() && !(scores[i] > scores[order[j]] || (scores[i] == scores[order[j]]
            && chars_less(&keys[i], &keys[order[j]])))
            invariant
                scores.len() == keys.len(),
                ks == vviews(keys@),
                i < scores.len(),
                order@ == ranked(scores@, ks, i as nat),
                order@.len() == i,
                forall|k: int| 0 <= k < i ==> (#[trigger] order@[k]) < i,
                j <= order.len(),
                forall|k: int|
                    0 <= k < j ==> !ranks_before(scores@, ks, i as int, #[trigger] order@[k] as int),
            decreases order.len() - j,
        {
            proof {
                assert(ks[i as int] == keys@[i as int]@);
                assert(ks[order@[j as int] as int] == keys@[order@[j as int] as int]@);
            }
            j = j + 1;
        }
        proof {
            lemma_insert_pos_skip(scores@, ks, order@, i, j as int);
            if j < order.len() {
                assert(ks[i as int] == keys@[i as int]@);
                assert(ks[order@[j as int] as int] == keys@[order@[j as int] as int]@);
                assert(order@.skip(j as int)[0] == order@[j as int]);
            }
            assert(insert_pos(scores@, ks, order@, i) == j);
        }
        order.insert(j, i);
        i = i + 1;
    }
    order
}

/// The stable order of entries by score (descending), then key.
pub fn rank_order_pub(scores: &Vec<i32>, keys: &Vec<Vec<char>>) -> (res: Vec<usize>)
    requires
        scores.len() == keys.len(),
    ensures
        res@ == ranked(scores@, vviews(keys@), scores.len() as nat),
{
    rank_order(scores, keys)
}

pub proof fn lemma_ranked_len_pub(scores: Seq<i32>, keys: Seq<Seq<char>>, n: nat)
    ensures
        ranked(scores, keys, n).len() == n,
        forall|k: int| 0 <= k < n ==> (#[trigger] ranked(scores, keys, n)[k]) < n,
{
    lemma_ranked_len(scores, keys, n);
}

/// The candidates of a ranking: each skill with its local score, best first, at most
/// `max_candidates` of them, and the milliseconds the ranking took.
#[derive(Debug, Clone)]
pub struct LocalRanking {
    pub candidates: Vec<(i32, SkillRecord)>,
    pub discovery_ms: u64,
    pub omitted_candidates: usize,
}

pub open spec fn score_seq(prompt: Seq<char>, skills: Seq<SkillRecord>) -> Seq<i32> {
    Seq::new(skills.len(), |i: int| spec_local_score(prompt, skills[i].name@, skills[i].description@) as i32)
}

pub open spec fn key_seq(skills: Seq<SkillRecord>) -> Seq<Seq<char>> {
    Seq::new(skills.len(), |i: int| ascii_lower(skills[i].name@))
}

pub open spec fn scores_fit(prompt: Seq<char>, skills: Seq<SkillRecord>) -> bool {
    forall|i: int| 0 <= i < skills.len() ==> spec_local_score(prompt, #[trigger] skills[i].name@, skills[i].description@) <= i32::MAX
}

/// `res` is the ranking of `skills` for `prompt`, cut at `max_candidates`.
pub open spec fn is_ranking_of(prompt: Seq<char>, skills: Seq<SkillRecord>, max_candidates: usize, res: LocalRanking) -> bool {
    let order = ranked(score_seq(prompt, skills), key_seq(skills), skills.len());
    let kept = if skills.len() <= max_candidates { skills.len() as int } else { max_candidates as int };
    &&& res.candidates@.len() == kept
    &&& res.omitted_candidates == skills.len() - kept
    &&& forall|k: int| 0 <= k < kept ==> {
        &&& (#[trigger] res.candidates@[k]).0 == score_seq(prompt, skills)[order[k] as int]
        &&& skill_view(res.candidates@[k].1) == skill_view(skills[order[k] as int])
    }
}

/// The skills ranked for a prompt: by local score, highest first, ties by ASCII-lowercased
/// name, equal keys in their input order; the first `max_candidates` are kept. The time it
/// took is measured on the clock, so nothing is stated of `discovery_ms`.
pub fn rank_candidates(prompt: &str, skills: &Vec<SkillRecord>, max_candidates: usize) -> (res: LocalRanking)
    requires
        scores_fit(prompt@, skills@),
    ensures
        is_ranking_of(prompt@, skills@, max_candidates, res),
{
    let started = clock_now();
    let ghost sc = score_seq(prompt@, skills@);
    let ghost ks = key_seq(skills@);
    let mut scores: Vec<i32> = Vec::new();
    let mut keys: Vec<Vec<char>> = Vec::new();
    let mut i: usize = 0;
    while i < skills.len()
        invariant
            scores_fit(prompt@, skills@),
            sc == score_seq(prompt@, skills@),
            ks == key_seq(skills@),
            i <= skills.len(),
            scores@ == sc.take(i as int),
            vviews(keys@) == ks.take(i as int),
        decreases skills.len() - i,
    {
        let s = local_score(prompt, &skills[i]);
        scores.push(s);
        let name = chars_of(skills[i].name.as_str());
        let k = to_ascii_lower(&name);
        let ghost before = vviews(keys@);
        keys.push(k);
        proof {
            assert(scores@ =~= sc.take(i + 1));
            assert(vviews(keys@) =~= before.push(k@));
            assert(vviews(keys@) =~= ks.take(i + 1));
        }
        i = i + 1;
    }
    proof {
        assert(scores@ =~= sc);
        assert(vviews(keys@) =~= ks);
    }
    let order = rank_order(&scores, &keys);
    proof {
        lemma_ranked_len(sc, ks, skills@.len());
    }
    let kept = if skills.len() <= max_candidates { skills.len() } else { max_candidates };
    let mut candidates: Vec<(i32, SkillRecord)> = Vec::new();
    let mut k: usize = 0;
    while k < kept
        invariant
            kept <= skills.len(),
            order@ == ranked(sc, ks, skills@.len()),
            order@.len() == skills@.len(),
            forall|m: int| 0 <= m < skills@.len() ==> (#[trigger] order@[m]) < skills@.len(),
            scores@ == sc,
            sc == score_seq(prompt@, skills@),
            k <= kept,
            candidates@.len() == k,
            forall|m: int| 0 <= m < k ==> {
                &&& (#[trigger] candidates@[m]).0 == sc[order@[m] as int]
                &&& skill_view(candidates@[m].1) == skill_view(skills@[order@[m] as int])
            },
        decreases kept - k,
    {
        let idx = order[k];
        assert(idx < skills.len());
        let record = skills[idx].duplicate();
        candidates.push((scores[idx], record));
        k = k + 1;
    }
    LocalRanking { candidates, discovery_ms: elapsed_ms_since(&started), omitted_candidates: skills.len() - kept }
}

/// The ranking when every score fits the stored width; `None` when one does not.
pub fn try_rank_candidates(prompt: &str, skills: &Vec<SkillRecord>, max_candidates: usize) -> (res: Option<LocalRanking>)
    ensures
        res is Some <==> scores_fit(prompt@, skills@),
        res matches Some(r) ==> is_ranking_of(prompt@, skills@, max_candidates, r),
{
    let mut i: usize = 0;
    while i < skills.len()
        invariant
            i <= skills.len(),
            forall|k: int| 0 <= k < i ==> spec_local_score(prompt@, #[trigger] skills@[k].name@, skills@[k].description@) <= i32::MAX,
        decreases skills.len() - i,
    {
        if try_local_score(prompt, &skills[i]).is_none() {
            return None;
        }
        i = i + 1;
    }
    Some(rank_candidates(prompt, skills, max_candidates))
}


// ---------------------------------------------------------------------------------------
// Reason codes
// ---------------------------------------------------------------------------------------

/// The reason code a suggestion reports for each fallback.
pub open spec fn spec_fallback_code(f: FallbackReason) -> Seq<char> {
    match f {
        FallbackReason::NoneSelected => "none_selected"@,
        FallbackReason::BelowProbabilityThreshold => "below_probability_threshold"@,
        FallbackReason::BelowMarginThreshold => "below_margin_threshold"@,
        FallbackReason::BelowScoreThreshold => "below_score_threshold"@,
        FallbackReason::LowConfidence => "low_confidence"@,
        FallbackReason::AmbiguousPredicate => "ambiguous_predicate"@,
        FallbackReason::MissingAnswer => "missing_choice"@,
        FallbackReason::UnknownChoice => "unknown_choice"@,
        FallbackReason::MalformedAnswer => "malformed_answer"@,
        FallbackReason::DryRun => "dry_run"@,
        FallbackReason::MissingApiKey => "missing_api_key"@,
        FallbackReason::Timeout => "timeout"@,
        FallbackReason::ProviderError => "provider_error"@,
        FallbackReason::StateDegraded => "state_degraded"@,
        FallbackReason::InvalidPolicy => "invalid_policy"@,
    }
}

fn fallback_code_str(f: FallbackReason) -> (res: &'static str)
    ensures
        res@ == spec_fallback_code(f),
{
    match f {
        FallbackReason::NoneSelected => "none_selected",
        FallbackReason::BelowProbabilityThreshold => "below_probability_threshold",
        FallbackReason::BelowMarginThreshold => "below_margin_threshold",
        FallbackReason::BelowScoreThreshold => "below_score_threshold",
        FallbackReason::LowConfidence => "low_confidence",
        FallbackReason::AmbiguousPredicate => "ambiguous_predicate",
        FallbackReason::MissingAnswer => "missing_choice",
        FallbackReason::UnknownChoice => "unknown_choice",
        FallbackReason::MalformedAnswer => "malformed_answer",
        FallbackReason::DryRun => "dry_run",
        FallbackReason::MissingApiKey => "missing_api_key",
        FallbackReason::Timeout => "timeout",
        FallbackReason::ProviderError => "provider_error",
        FallbackReason::StateDegraded => "state_degraded",
        FallbackReason::InvalidPolicy => "invalid_policy",
    }
}

pub fn fallback_code(fallback: Option<FallbackReason>) -> (res: Option<String>)
    ensures
        fallback is None <==> res is None,
        fallback matches Some(f) ==> res matches Some(c) && c@ == spec_fallback_code(f),
{
    match fallback {
        Some(f) => Some(fallback_code_str(f).to_owned()),
        None => None,
    }
}

// ---------------------------------------------------------------------------------------
// Truncation by UTF-8 length
// ---------------------------------------------------------------------------------------

/// The UTF-8 width of a character.
pub open spec fn utf8_width(c: char) -> nat {
    let u = c as u32;
    if u < 0x80 {
        1
    } else if u < 0x800 {
        2
    } else if u < 0x10000 {
        3
    } else {
        4
    }
}

/// The UTF-8 length of a text (what `str::len` reports).
pub open spec fn utf8_len(s: Seq<char>) -> nat
    decreases s.len(),
{
    if s.len() == 0 {
        0
    } else {
        utf8_len(s.drop_last()) + utf8_width(s.last())
    }
}

/// How many leading characters fit in `budget` bytes.
pub open spec fn fit_prefix(s: Seq<char>, budget: int) -> nat
    decreases s.len(),
{
    if s.len() == 0 || utf8_width(s[0]) > budget {
        0
    } else {
        1 + fit_prefix(s.drop_first(), budget - utf8_width(s[0]))
    }
}

/// A text cut to at most `max_bytes` bytes: unchanged when it fits; otherwise the longest
/// prefix that fits in `max_bytes` minus the marker's 11 bytes, followed by `<truncated>`.
pub open spec fn spec_truncate(s: Seq<char>, max_bytes: usize) -> Seq<char> {
    if utf8_len(s) <= max_bytes {
        s
    } else {
        let budget: int = if max_bytes >= 11 { max_bytes - 11 } else { 0 };
        s.take(fit_prefix(s, budget) as int) + "<truncated>"@
    }
}

fn char_utf8_width(c: char) -> (res: u128)
    ensures
        res == utf8_width(c),
        1 <= res <= 4,
{
    let u = c as u32;
    if u < 0x80 {
        1
    } else if u < 0x800 {
        2
    } else if u < 0x10000 {
        3
    } else {
        4
    }
}

proof fn lemma_fit_prefix_le(s: Seq<char>, budget: int)
    ensures
        fit_prefix(s, budget) <= s.len(),
    decreases s.len(),
{
    if s.len() > 0 && utf8_width(s[0]) <= budget {
        lemma_fit_prefix_le(s.drop_first(), budget - utf8_width(s[0]));
    }
}

pub fn truncate_text(value: &str, max_bytes: usize) -> (res: String)
    ensures
        res@ == spec_truncate(value@, max_bytes),
{
    let c = chars_of(value);
    let mut total: u128 = 0;
    let mut i: usize = 0;
    while i < c.len()
        invariant
            i <= c.len(),
            total == utf8_len(c@.take(i as int)),
            total <= 4 * i,
        decreases c.len() - i,
    {
        proof {
            assert(c@.take(i + 1).drop_last() =~= c@.take(i as int));
        }
        total = total + char_utf8_width(c[i]);
        i = i + 1;
    }
    proof {
        assert(c@.take(i as int) =~= c@);
    }
    if total <= max_bytes as u128 {
        return value.to_owned();
    }
    let budget: u128 = if max_bytes >= 11 { (max_bytes - 11) as u128 } else { 0 };
    let mut used: u128 = 0;
    let mut k: usize = 0;
    proof {
        assert(c@.skip(0) =~= c@);
    }
    while k < c.len() && used + char_utf8_width(c[k]) <= budget
        invariant
            k <= c.len(),
            budget <= usize::MAX,
            used <= budget,
            fit_prefix(c@, budget as int) == k + fit_prefix(c@.skip(k as int), budget - used),
        decreases c.len() - k,
    {
        proof {
            assert(c@.skip(k as int)[0] == c@[k as int]);
            assert(c@.skip(k as int).drop_first() =~= c@.skip(k + 1));
        }
        used = used + char_utf8_width(c[k]);
        k = k + 1;
    }
    proof {
        if k < c.len() {
            assert(c@.skip(k as int)[0] == c@[k as int]);
        }
        lemma_fit_prefix_le(c@, budget as int);
    }
    let mut out = slice_vec(&c, 0, k);
    let marker = chars_of("<truncated>");
    append_chars(&mut out, &marker);
    proof {
        assert(c@.subrange(0, k as int) =~= c@.take(k as int));
    }
    string_from_chars(&out)
}

// ---------------------------------------------------------------------------------------
// Settling a suggestion
// ---------------------------------------------------------------------------------------

/// The first skill whose name equals `name`, ignoring ASCII case.
pub open spec fn first_named(skills: Seq<SkillRecord>, name: Seq<char>, from: int) -> Option<int>
    decreases skills.len() - from,
{
    if from < 0 || from >= skills.len() {
        None
    } else if eq_ignore_case(skills[from].name@, name) {
        Some(from)
    } else {
        first_named(skills, name, from + 1)
    }
}

/// The skill named explicitly by the user, if any has that name.
pub fn find_explicit_skill(skills: &Vec<SkillRecord>, name: &str) -> (res: Option<usize>)
    ensures
        res matches Some(i) ==> first_named(skills@, name@, 0) == Some(i as int),
        res is None ==> first_named(skills@, name@, 0) is None,
{
    let n = chars_of(name);
    let mut i: usize = 0;
    while i < skills.len()
        invariant
            i <= skills.len(),
            n@ == name@,
            first_named(skills@, name@, 0) == first_named(skills@, name@, i as int),
        decreases skills.len() - i,
    {
        let sn = chars_of(skills[i].name.as_str());
        if eq_ignore_ascii_case(&sn, &n) {
            return Some(i);
        }
        i = i + 1;
    }
    None
}

/// The first candidate with the given id.
pub open spec fn first_with_id(cands: Seq<(i32, SkillRecord)>, id: Seq<char>, from: int) -> Option<int>
    decreases cands.len() - from,
{
    if from < 0 || from >= cands.len() {
        None
    } else if cands[from].1.id@ == id {
        Some(from)
    } else {
        first_with_id(cands, id, from + 1)
    }
}

fn find_candidate(cands: &Vec<(i32, SkillRecord)>, id: &str) -> (res: Option<usize>)
    ensures
        res matches Some(i) ==> first_with_id(cands@, id@, 0) == Some(i as int),
        res is None ==> first_with_id(cands@, id@, 0) is None,
{
    let idc = chars_of(id);
    let mut i: usize = 0;
    while i < cands.len()
        invariant
            i <= cands.len(),
            idc@ == id@,
            first_with_id(cands@, id@, 0) == first_with_id(cands@, id@, i as int),
        decreases cands.len() - i,
    {
        let c = chars_of(cands[i].1.id.as_str());
        if chars_eq(&c, &idc) {
            return Some(i);
        }
        i = i + 1;
    }
    None
}

/// How a judged suggestion ends: the decision, the selected candidate's position, and the
/// reason code.
#[derive(Debug)]
pub struct ChoiceSettlement {
    pub decision: CandidateDecision,
    pub selected: Option<usize>,
    pub reason_code: Option<String>,
}

pub open spec fn opt_code(c: Option<String>) -> Option<Seq<char>> {
    match c {
        Some(s) => Some(s@),
        None => None,
    }
}

pub open spec fn opt_fallback_code(f: Option<FallbackReason>) -> Option<Seq<char>> {
    match f {
        Some(r) => Some(spec_fallback_code(r)),
        None => None,
    }
}

/// An accepted choice other than `none` selects the first candidate with that id, or
/// reports `unknown_choice` when none has it; anything else selects nothing and reports
/// the decision's fallback code.
pub fn settle_choice(
    candidates: &Vec<(i32, SkillRecord)>,
    status: DecisionStatus,
    choice: Option<&str>,
    fallback: Option<FallbackReason>,
) -> (res: ChoiceSettlement)
    ensures
        ({
            let live = status == DecisionStatus::Accepted && (choice matches Some(c) && c@ != "none"@);
            &&& !live ==> (res.decision == CandidateDecision::NoMatch && res.selected is None
                && opt_code(res.reason_code) == opt_fallback_code(fallback))
            &&& live ==> match first_with_id(candidates@, choice->0@, 0) {
                Some(i) => res.decision == CandidateDecision::Selected && res.selected == Some(i as usize)
                    && res.reason_code is None,
                None => res.decision == CandidateDecision::NoMatch && res.selected is None
                    && opt_code(res.reason_code) == Some("unknown_choice"@),
            }
        }),
{
    if status == DecisionStatus::Accepted {
        if let Some(c) = choice {
            let cc = chars_of(c);
            if !eq_lit(&cc, "none") {
                match find_candidate(candidates, c) {
                    Some(i) => {
                        return ChoiceSettlement { decision: CandidateDecision::Selected, selected: Some(i), reason_code: None };
                    },
                    None => {
                        return ChoiceSettlement {
                            decision: CandidateDecision::NoMatch,
                            selected: None,
                            reason_code: Some("unknown_choice".to_owned()),
                        };
                    },
                }
            }
        }
    }
    ChoiceSettlement { decision: CandidateDecision::NoMatch, selected: None, reason_code: fallback_code(fallback) }
}

/// The error a failed decision execution surfaces, by its error code.
pub open spec fn spec_execution_error_kind(code: Seq<char>) -> int {
    if code == "missing_api_key"@ {
        0
    } else if code == "timeout"@ {
        1
    } else if code == "state_degraded"@ || code == "invalid_input"@ || code == "replay_mismatch"@ {
        2
    } else if code == "provider_error"@ || code == "io_error"@ {
        3
    } else {
        4
    }
}

pub open spec fn generic_failure_message() -> Seq<char> {
    "Jevの評価に失敗しました。"@
}

/// Maps a decision execution's error code to the error a suggestion returns: a missing
/// key and a timeout keep their kind; degraded, invalid or mismatched state is invalid
/// input; a provider or I/O failure carries its message (or a generic one); any other code
/// is a provider error with the generic message.
pub fn execution_error(code: Option<&str>, message: Option<&str>) -> (res: Option<JevxError>)
    ensures
        code is None <==> res is None,
        code matches Some(c) ==> {
            let k = spec_execution_error_kind(c@);
            &&& k == 0 ==> (res matches Some(JevxError::MissingApiKey))
            &&& k == 1 ==> (res matches Some(JevxError::Timeout))
            &&& k == 2 ==> (res matches Some(JevxError::InvalidInput(m)) && m@ == "decision state is degraded or invalid"@)
            &&& k == 3 ==> (res matches Some(JevxError::Provider(m)) && m@ == (match message {
                Some(t) => t@,
                None => generic_failure_message(),
            }))
            &&& k == 4 ==> (res matches Some(JevxError::Provider(m)) && m@ == generic_failure_message())
        },
{
    let c = match code {
        Some(c) => c,
        None => return None,
    };
    let cc = chars_of(c);
    if eq_lit(&cc, "missing_api_key") {
        Some(JevxError::MissingApiKey)
    } else if eq_lit(&cc, "timeout") {
        Some(JevxError::Timeout)
    } else if eq_lit(&cc, "state_degraded") || eq_lit(&cc, "invalid_input") || eq_lit(&cc, "replay_mismatch") {
        Some(JevxError::invalid_input("decision state is degraded or invalid"))
    } else if eq_lit(&cc, "provider_error") || eq_lit(&cc, "io_error") {
        match message {
            Some(m) => Some(JevxError::Provider(m.to_owned())),
            None => Some(JevxError::Provider("Jevの評価に失敗しました。".to_owned())),
        }
    } else {
        Some(JevxError::Provider("Jevの評価に失敗しました。".to_owned()))
    }
}

/// Why the state sent to the judge differs from what the user gave, in a fixed order.
pub fn redaction_reasons(prompt_changed: bool, cwd_changed: bool, candidate_changed: bool) -> (res: Vec<String>)
    ensures
        res@.len() == (if prompt_changed { 1int } else { 0 }) + (if cwd_changed { 1int } else { 0 })
            + (if candidate_changed { 1int } else { 0 }),
        prompt_changed ==> res@[0]@ == "prompt_secret_pattern"@,
        cwd_changed ==> res@[if prompt_changed { 1int } else { 0 }]@ == "cwd_secret_pattern"@,
        candidate_changed ==> res@[res@.len() - 1]@ == "candidate_secret_pattern"@,
{
    let mut res: Vec<String> = Vec::new();
    if prompt_changed {
        res.push("prompt_secret_pattern".to_owned());
    }
    if cwd_changed {
        res.push("cwd_secret_pattern".to_owned());
    }
    if candidate_changed {
        res.push("candidate_secret_pattern".to_owned());
    }
    res
}

} // verus!
