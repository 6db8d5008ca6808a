//! Finding skills: which files are skill files, what a skill file's front matter must hold,
//! and which of the skills found under several roots are kept.
//!
//! Walking directories and reading files is the caller's part; it hands each candidate
//! here in the order it was found.

use vstd::prelude::*;

use crate::ranking::{chars_less, chars_lt, ranked};
use crate::text::{
    ascii_lower, chars_eq, chars_of, eq_lit, occurs_at, slice_vec, starts_with, string_from_chars,
    to_ascii_lower, trim, trim_chars, vviews,
};
use crate::types::{skill_view, SkillRecord};

verus! {

/// A directory to search for skills, with the source label its skills get and its
/// priority (lower wins when two roots hold a skill with the same id).
#[derive(Debug, Clone)]
pub struct SkillRoot {
    pub path: String,
    pub source: String,
    pub priority: usize,
}

impl SkillRoot {
    pub fn new(path: String, source: String, priority: usize) -> (res: SkillRoot)
        ensures
            res.path@ == path@,
            res.source@ == source@,
            res.priority == priority,
    {
        SkillRoot { path, source, priority }
    }
}

/// Plain directories given on the command line: each is a `project` root whose priority is
/// its position.
pub fn project_roots(paths: &Vec<String>) -> (res: Vec<SkillRoot>)
    ensures
        res@.len() == paths@.len(),
        forall|i: int| 0 <= i < paths@.len() ==> {
            &&& (#[trigger] res@[i]).path@ == paths@[i]@
            &&& res@[i].source@ == "project"@
            &&& res@[i].priority == i
        },
{
    let mut res: Vec<SkillRoot> = Vec::new();
    let mut i: usize = 0;
    while i < paths.len()
        invariant
            i <= paths.len(),
            res@.len() == i,
            forall|k: int| 0 <= k < i ==> {
                &&& (#[trigger] res@[k]).path@ == paths@[k]@
                &&& res@[k].source@ == "project"@
                &&& res@[k].priority == k
            },
        decreases paths.len() - i,
    {
        res.push(SkillRoot { path: paths[i].clone(), source: "project".to_owned(), priority: i });
        i = i + 1;
    }
    res
}

/// A skill file is named `SKILL.md`.
pub fn is_skill_file_name(name: &str) -> (res: bool)
    ensures
        res == (name@ == "SKILL.md"@),
{
    let n = chars_of(name);
    eq_lit(&n, "SKILL.md")
}

/// Hidden directories and `target` are not searched.
pub fn is_skipped_dir_name(name: &str) -> (res: bool)
    ensures
        res == (starts_with(name@, "."@) || name@ == "target"@),
{
    let n = chars_of(name);
    let dot = chars_of(".");
    crate::text::starts_with_chars(&n, &dot) || eq_lit(&n, "target")
}

/// The first position where `needle` occurs in `hay`.
pub open spec fn first_occurrence(hay: Seq<char>, needle: Seq<char>, from: int) -> Option<int>
    decreases hay.len() + 1 - from,
{
    if from < 0 || from + needle.len() > hay.len() {
        None
    } else if occurs_at(hay, needle, from) {
        Some(from)
    } else {
        first_occurrence(hay, needle, from + 1)
    }
}

/// The first position of `needle` in `hay`, as `str::find` reports it.
pub fn find_chars(hay: &[char], needle: &[char]) -> (res: Option<usize>)
    ensures
        res matches Some(p) ==> first_occurrence(hay@, needle@, 0) == Some(p as int),
        res is None ==> first_occurrence(hay@, needle@, 0) is None,
        res matches Some(p) ==> p + needle@.len() <= hay@.len(),
{
    if needle.len() == 0 {
        proof {
            assert(hay@.subrange(0, 0) =~= needle@);
        }
        return Some(0);
    }
    let mut i: usize = 0;
    while i <= hay.len() && needle.len() <= hay.len() - i
        invariant
            needle.len() >= 1,
            i <= hay.len(),
            first_occurrence(hay@, needle@, 0) == first_occurrence(hay@, needle@, i as int),
        decreases hay.len() + 1 - i,
    {
        if crate::text::matches_at(hay, needle, i) {
            return Some(i);
        }
        i = i + 1;
    }
    None
}

/// The front matter of a skill file: after a leading `---` line, everything up to the
/// next line that starts with `---`.
pub open spec fn spec_frontmatter(content: Seq<char>) -> Option<Seq<char>> {
    if !starts_with(content, "---\n"@) {
        None
    } else {
        let rest = content.skip(4);
        match first_occurrence(rest, "\n---"@, 0) {
            Some(end) => Some(rest.take(end)),
            None => None,
        }
    }
}

pub fn extract_frontmatter(content: &str) -> (res: Option<String>)
    ensures
        match spec_frontmatter(content@) {
            Some(f) => res matches Some(s) && s@ == f,
            None => res is None,
        },
{
    let c = chars_of(content);
    let head = chars_of("---\n");
    if !crate::text::starts_with_chars(&c, &head) {
        return None;
    }
    proof {
        reveal_strlit("---\n");
    }
    let rest = slice_vec(&c, 4, c.len());
    proof {
        assert(rest@ =~= content@.skip(4));
    }
    let needle = chars_of("\n---");
    proof {
        reveal_strlit("\n---");
    }
    let mut i: usize = 0;
    while i <= rest.len() && needle.len() <= rest.len() - i
        invariant
            i <= rest.len(),
            rest@ == content@.skip(4),
            starts_with(content@, "---\n"@),
            needle@ == "\n---"@,
            needle@.len() == 4,
            first_occurrence(rest@, needle@, 0) == first_occurrence(rest@, needle@, i as int),
        decreases rest.len() - i,
    {
        if crate::text::matches_at(&rest, &needle, i) {
            let f = slice_vec(&rest, 0, i);
            proof {
                assert(f@ =~= rest@.take(i as int));
            }
            return Some(string_from_chars(&f));
        }
        i = i + 1;
    }
    None
}

pub open spec fn trimmed_nonblank(v: Option<Seq<char>>) -> Option<Seq<char>> {
    match v {
        Some(s) => if trim(s).len() > 0 { Some(trim(s)) } else { None },
        None => None,
    }
}

pub open spec fn opt_str(v: Option<&str>) -> Option<Seq<char>> {
    match v {
        Some(s) => Some(s@),
        None => None,
    }
}

/// The skill a parsed front matter describes: its name and description, trimmed, must both
/// be present and not blank; the skill's id and name are the name.
pub fn skill_from_frontmatter(name: Option<&str>, description: Option<&str>, path: &str, source: &str) -> (res: Option<SkillRecord>)
    ensures
        (trimmed_nonblank(opt_str(name)) is None || trimmed_nonblank(opt_str(description)) is None) <==> res is None,
        res matches Some(s) ==> {
            &&& s.id@ == trimmed_nonblank(opt_str(name))->0
            &&& s.name@ == trimmed_nonblank(opt_str(name))->0
            &&& s.description@ == trimmed_nonblank(opt_str(description))->0
            &&& s.path@ == path@
            &&& s.source@ == source@
        },
{
    let n = match name {
        Some(v) => {
            let c = chars_of(v);
            let t = trim_chars(&c);
            if t.len() == 0 {
                return None;
            }
            t
        },
        None => return None,
    };
    let d = match description {
        Some(v) => {
            let c = chars_of(v);
            let t = trim_chars(&c);
            if t.len() == 0 {
                return None;
            }
            t
        },
        None => return None,
    };
    Some(SkillRecord::new(string_from_chars(&n), string_from_chars(&d), path.to_owned(), source.to_owned()))
}

// ---------------------------------------------------------------------------------------
// Choosing among skills found under several roots
// ---------------------------------------------------------------------------------------

/// The candidate at `i` is kept: no candidate with the same id (ignoring ASCII case) comes
/// from a root of lower priority, nor from an equal one earlier.
pub open spec fn is_winner(found: Seq<(usize, SkillRecord)>, i: int) -> bool {
    forall|j: int|
        0 <= j < found.len() && j != i && ascii_lower(#[trigger] found[j].1.id@) == ascii_lower(found[i].1.id@)
            ==> (found[i].0 < found[j].0 || (found[i].0 == found[j].0 && i < j))
}

/// The kept candidates' positions, in the order found.
pub open spec fn winners(found: Seq<(usize, SkillRecord)>, n: nat) -> Seq<usize>
    decreases n,
{
    if n == 0 {
        seq![]
    } else {
        let w = winners(found, (n - 1) as nat);
        if is_winner(found, n - 1) {
            w.push((n - 1) as usize)
        } else {
            w
        }
    }
}

pub open spec fn zero_scores(n: nat) -> Seq<i32> {
    Seq::new(n, |i: int| 0i32)
}

/// The names of the kept candidates, ASCII-lowercased, in the order found.
pub open spec fn winner_keys(found: Seq<(usize, SkillRecord)>) -> Seq<Seq<char>> {
    let w = winners(found, found.len());
    Seq::new(w.len(), |k: int| ascii_lower(found[w[k] as int].1.name@))
}

/// The skills kept from what was found, sorted by ASCII-lowercased name (equal names in the
/// order found).
pub open spec fn is_selection_of(found: Seq<(usize, SkillRecord)>, res: Seq<SkillRecord>) -> bool {
    let w = winners(found, found.len());
    let order = ranked(zero_scores(w.len()), winner_keys(found), w.len());
    &&& res.len() == w.len()
    &&& forall|k: int| 0 <= k < res.len() ==> skill_view(#[trigger] res[k]) == skill_view(found[w[order[k] as int] as int].1)
}

fn lower_id(s: &SkillRecord) -> (res: Vec<char>)
    ensures
        res@ == ascii_lower(s.id@),
{
    let c = chars_of(s.id.as_str());
    to_ascii_lower(&c)
}

fn winner_exec(found: &Vec<(usize, SkillRecord)>, i: usize) -> (res: bool)
    requires
        i < found.len(),
    ensures
        res == is_winner(found@, i as int),
{
    let ki = lower_id(&found[i].1);
    let mut j: usize = 0;
    while j < found.len()
        invariant
            i < found.len(),
            j <= found.len(),
            ki@ == ascii_lower(found@[i as int].1.id@),
            forall|m: int|
                0 <= m < j && m != i && ascii_lower(#[trigger] found@[m].1.id@) == ascii_lower(found@[i as int].1.id@)
                    ==> (found@[i as int].0 < found@[m].0 || (found@[i as int].0 == found@[m].0 && i < m)),
        decreases found.len() - j,
    {
        if j != i {
            let kj = lower_id(&found[j].1);
            if chars_eq(&kj, &ki) {
                if !(found[i].0 < found[j].0 || (found[i].0 == found[j].0 && i < j)) {
                    return false;
                }
            }
        }
        j = j + 1;
    }
    true
}

/// Keeps one skill per id and sorts the kept skills by name.
pub fn select_skills(found: &Vec<(usize, SkillRecord)>) -> (res: Vec<SkillRecord>)
    ensures
        is_selection_of(found@, res@),
{
    let mut win: Vec<usize> = Vec::new();
    let mut i: usize = 0;
    while i < found.len()
        invariant
            i <= found.len(),
            win@ == winners(found@, i as nat),
            forall|k: int| 0 <= k < win@.len() ==> (#[trigger] win@[k]) < i,
        decreases found.len() - i,
    {
        if winner_exec(found, i) {
            win.push(i);
        }
        i = i + 1;
    }
    let ghost w = win@;
    let mut scores: Vec<i32> = Vec::new();
    let mut keys: Vec<Vec<char>> = Vec::new();
    let mut k: usize = 0;
    while k < win.len()
        invariant
            win@ == w,
            w == winners(found@, found@.len()),
            forall|m: int| 0 <= m < w.len() ==> (#[trigger] w[m]) < found@.len(),
            k <= win.len(),
            scores@ == zero_scores(w.len()).take(k as int),
            vviews(keys@) == winner_keys(found@).take(k as int),
        decreases win.len() - k,
    {
        let idx = win[k];
        let nc = chars_of(found[idx].1.name.as_str());
        let key = to_ascii_lower(&nc);
        scores.push(0);
        let ghost before = vviews(keys@);
        keys.push(key);
        proof {
            assert(scores@ =~= zero_scores(w.len()).take(k + 1));
            assert(vviews(keys@) =~= before.push(key@));
            assert(vviews(keys@) =~= winner_keys(found@).take(k + 1));
        }
        k = k + 1;
    }
    proof {
        assert(scores@ =~= zero_scores(w.len()));
        assert(vviews(keys@) =~= winner_keys(found@));
    }
    let order = crate::ranking::rank_order_pub(&scores, &keys);
    proof {
        crate::ranking::lemma_ranked_len_pub(zero_scores(w.len()), winner_keys(found@), w.len());
    }
    let mut res: Vec<SkillRecord> = Vec::new();
    let mut m: usize = 0;
    while m < order.len()
        invariant
            win@ == w,
            w == winners(found@, found@.len()),
            forall|q: int| 0 <= q < w.len() ==> (#[trigger] w[q]) < found@.len(),
            order@ == ranked(zero_scores(w.len()), winner_keys(found@), w.len()),
            order@.len() == w.len(),
            forall|q: int| 0 <= q < w.len() ==> (#[trigger] order@[q]) < w.len(),
            m <= order.len(),
            res@.len() == m,
            forall|q: int| 0 <= q < m ==> skill_view(#[trigger] res@[q]) == skill_view(found@[w[order@[q] as int] as int].1),
        decreases order.len() - m,
    {
        let o = order[m];
        let idx = win[o];
        res.push(found[idx].1.duplicate());
        m = m + 1;
    }
    res
}

} // verus!
