//! Secret redaction for text that leaves the machine or enters a record.
//!
//! `redact` walks the text line by line and word by word. It replaces with `<redacted>`:
//! values of sensitive assignments (`api_key=...`, `password: ...`), the value that follows a
//! sensitive label (`secret is ...`, `Authorization: Bearer ...`), provider keys (`sk-...`),
//! indented continuation lines under a sensitive assignment, and whole private-key blocks.
//! Everything else is kept word for word; the line structure is kept.

use vstd::prelude::*;

use crate::path::{
    component_views, components_of, path_components, push_path, push_path_vec, COMPONENT_CUR_DIR,
    COMPONENT_NORMAL, COMPONENT_PARENT_DIR, COMPONENT_ROOT_DIR,
};
use crate::text::{
    all_whitespace, all_ws, append_chars, ascii_lower, ascii_upper, chars_eq, chars_of,
    contains_chars, contains_seq, ends_with, ends_with_chars, eq_ignore_ascii_case,
    eq_ignore_case, is_ascii_alnum, is_ascii_alphanumeric, is_whitespace, is_ws, join,
    join_chars, lines, lower_char, slice_vec, split_chars, split_lines, split_on,
    split_whitespace, starts_with, starts_with_chars, string_from_chars, to_ascii_lower,
    to_ascii_upper, to_lower_char, vviews, words,
};

verus! {

// ---------------------------------------------------------------------------------------
// Literals
// ---------------------------------------------------------------------------------------

pub open spec fn redacted_marker() -> Seq<char> {
    seq!['<', 'r', 'e', 'd', 'a', 'c', 't', 'e', 'd', '>']
}

pub fn redacted_marker_vec() -> (res: Vec<char>)
    ensures
        res@ == redacted_marker(),
{
    let v: Vec<char> = vec!['<', 'r', 'e', 'd', 'a', 'c', 't', 'e', 'd', '>'];
    assert(v@ =~= redacted_marker());
    v
}

/// Characters that `trim_wrappers` strips: quotes, brackets and list punctuation.
pub open spec fn wrapper_set() -> Seq<char> {
    seq!['"', '\'', '`', '{', '}', '[', ']', ',', ';']
}

/// Assignment characters.
pub open spec fn assign_set() -> Seq<char> {
    seq![':', '=']
}

/// Characters a bare separator token is made of.
pub open spec fn separator_set() -> Seq<char> {
    seq![':', '=', ',', ';']
}

// ---------------------------------------------------------------------------------------
// Trimming by a character set (`str::trim_matches` with a set of characters)
// ---------------------------------------------------------------------------------------

pub open spec fn trim_start_set(s: Seq<char>, set: Seq<char>) -> Seq<char>
    decreases s.len(),
{
    if s.len() > 0 && set.contains(s[0]) {
        trim_start_set(s.drop_first(), set)
    } else {
        s
    }
}

pub open spec fn trim_end_set(s: Seq<char>, set: Seq<char>) -> Seq<char>
    decreases s.len(),
{
    if s.len() > 0 && set.contains(s.last()) {
        trim_end_set(s.drop_last(), set)
    } else {
        s
    }
}

pub open spec fn trim_set(s: Seq<char>, set: Seq<char>) -> Seq<char> {
    trim_end_set(trim_start_set(s, set), set)
}

proof fn lemma_trim_start_set_skip(s: Seq<char>, set: Seq<char>, i: int)
    requires
        0 <= i <= s.len(),
        forall|k: int| 0 <= k < i ==> set.contains(#[trigger] s[k]),
    ensures
        trim_start_set(s, set) == trim_start_set(s.skip(i), set),
    decreases i,
{
    if i > 0 {
        lemma_trim_start_set_skip(s, set, i - 1);
        assert(s.skip(i - 1).drop_first() =~= s.skip(i));
    } else {
        assert(s.skip(0) =~= s);
    }
}

proof fn lemma_trim_end_set_take(s: Seq<char>, set: Seq<char>, j: int)
    requires
        0 <= j <= s.len(),
        forall|k: int| j <= k < s.len() ==> set.contains(#[trigger] s[k]),
    ensures
        trim_end_set(s, set) == trim_end_set(s.take(j), set),
    decreases s.len() - j,
{
    if j < s.len() {
        lemma_trim_end_set_take(s, set, j + 1);
        assert(s.take(j + 1).drop_last() =~= s.take(j));
    } else {
        assert(s.take(j) =~= s);
    }
}

fn in_set(c: char, set: &[char]) -> (res: bool)
    ensures
        res == set@.contains(c),
{
    let mut i: usize = 0;
    while i < set.len()
        invariant
            i <= set.len(),
            forall|k: int| 0 <= k < i ==> set@[k] != c,
        decreases set.len() - i,
    {
        if set[i] == c {
            assert(set@[i as int] == c);
            return true;
        }
        i = i + 1;
    }
    false
}

pub fn trim_set_vec(s: &[char], set: &[char]) -> (res: Vec<char>)
    ensures
        res@ == trim_set(s@, set@),
{
    let mut i: usize = 0;
    while i < s.len() && in_set(s[i], set)
        invariant
            i <= s.len(),
            forall|k: int| 0 <= k < i ==> set@.contains(#[trigger] s@[k]),
        decreases s.len() - i,
    {
        i = i + 1;
    }
    proof {
        lemma_trim_start_set_skip(s@, set@, i as int);
        if i < s.len() {
            assert(s@.skip(i as int)[0] == s@[i as int]);
        }
    }
    let mut j: usize = s.len();
    while j > i && in_set(s[j - 1], set)
        invariant
            i <= j <= s.len(),
            forall|k: int| j <= k < s.len() ==> set@.contains(#[trigger] s@[k]),
        decreases j,
    {
        j = j - 1;
    }
    proof {
        let t = s@.skip(i as int);
        assert forall|k: int| j - i <= k < t.len() implies set@.contains(#[trigger] t[k]) by {
            assert(t[k] == s@[k + i]);
        }
        lemma_trim_end_set_take(t, set@, j - i);
        assert(t.take(j - i) =~= s@.subrange(i as int, j as int));
        let u = s@.subrange(i as int, j as int);
        if j > i {
            assert(u.last() == s@[j - 1]);
        }
    }
    slice_vec(s, i, j)
}

/// `trim_wrappers`: strips quotes, brackets, `,` and `;` from both ends.
pub open spec fn trim_wrappers(s: Seq<char>) -> Seq<char> {
    trim_set(s, wrapper_set())
}

/// The label part of a token: wrappers, then `:`/`=` stripped from both ends.
pub open spec fn key_of(token: Seq<char>) -> Seq<char> {
    trim_set(trim_wrappers(token), assign_set())
}

fn trim_wrappers_vec(s: &[char]) -> (res: Vec<char>)
    ensures
        res@ == trim_wrappers(s@),
{
    let set: [char; 9] = ['"', '\'', '`', '{', '}', '[', ']', ',', ';'];
    assert(set@ =~= wrapper_set());
    trim_set_vec(s, &set)
}

fn key_of_vec(token: &[char]) -> (res: Vec<char>)
    ensures
        res@ == key_of(token@),
{
    let t = trim_wrappers_vec(token);
    let set: [char; 2] = [':', '='];
    assert(set@ =~= assign_set());
    trim_set_vec(&t, &set)
}

// ---------------------------------------------------------------------------------------
// Identifiers
// ---------------------------------------------------------------------------------------

pub open spec fn normalize_char(c: char) -> char {
    if is_ascii_alnum(c) {
        lower_char(c)
    } else {
        '_'
    }
}

/// ASCII letters and digits lowercased, every other character mapped to `_`.
pub open spec fn normalize_identifier(s: Seq<char>) -> Seq<char> {
    s.map_values(|c: char| normalize_char(c))
}

fn normalize_identifier_vec(s: &[char]) -> (res: Vec<char>)
    ensures
        res@ == normalize_identifier(s@),
{
    let mut res: Vec<char> = Vec::new();
    let mut i: usize = 0;
    while i < s.len()
        invariant
            i <= s.len(),
            res@ == normalize_identifier(s@.take(i as int)),
        decreases s.len() - i,
    {
        let c = s[i];
        let n = if is_ascii_alphanumeric(c) {
            to_lower_char(c)
        } else {
            '_'
        };
        res.push(n);
        i = i + 1;
        assert(normalize_identifier(s@.take(i as int)) =~= normalize_identifier(
            s@.take(i - 1 as int),
        ).push(normalize_char(s@[i - 1])));
    }
    assert(s@.take(s.len() as int) =~= s@);
    res
}

pub open spec fn lit_token() -> Seq<char> {
    seq!['t', 'o', 'k', 'e', 'n']
}

pub open spec fn lit_key() -> Seq<char> {
    seq!['k', 'e', 'y']
}

/// Whole identifiers that are sensitive.
pub open spec fn is_sensitive_key_name(n: Seq<char>) -> bool {
    n == lit_token() || n == seq!['a', 'p', 'i', '_', 'k', 'e', 'y'] || n == seq![
        's',
        'e',
        'c',
        'r',
        'e',
        't',
    ] || n == seq!['p', 'a', 's', 's', 'w', 'o', 'r', 'd'] || n == seq![
        'a',
        'u',
        't',
        'h',
        'o',
        'r',
        'i',
        'z',
        'a',
        't',
        'i',
        'o',
        'n',
    ]
}

/// `_`-separated parts that make an identifier sensitive.
pub open spec fn is_sensitive_part(p: Seq<char>) -> bool {
    p == seq!['s', 'e', 'c', 'r', 'e', 't'] || p == seq!['p', 'a', 's', 's', 'w', 'o', 'r', 'd']
        || p == seq!['p', 'a', 's', 's', 'w', 'd'] || p == seq![
        'c',
        'r',
        'e',
        'd',
        'e',
        'n',
        't',
        'i',
        'a',
        'l',
    ] || p == seq!['c', 'r', 'e', 'd', 'e', 'n', 't', 'i', 'a', 'l', 's'] || p == seq![
        'a',
        'u',
        't',
        'h',
        'o',
        'r',
        'i',
        'z',
        'a',
        't',
        'i',
        'o',
        'n',
    ]
}

/// Adjacent parts `api key`, `access key`, `private key`.
pub open spec fn is_sensitive_pair(a: Seq<char>, b: Seq<char>) -> bool {
    b == lit_key() && (a == seq!['a', 'p', 'i'] || a == seq!['a', 'c', 'c', 'e', 's', 's']
        || a == seq!['p', 'r', 'i', 'v', 'a', 't', 'e'])
}

/// Some `_`-separated part is sensitive.
pub open spec fn has_sensitive_part(parts: Seq<Seq<char>>) -> bool {
    exists|i: int| 0 <= i < parts.len() && is_sensitive_part(#[trigger] parts[i])
}

/// Some two adjacent parts form a sensitive pair.
pub open spec fn has_sensitive_pair(parts: Seq<Seq<char>>) -> bool {
    exists|i: int| 0 <= i && i + 1 < parts.len() && is_sensitive_pair(#[trigger] parts[i], parts[i + 1])
}

/// `is_sensitive_identifier` on an already normalized identifier.
pub open spec fn is_sensitive_identifier(n: Seq<char>) -> bool {
    is_sensitive_key_name(n) || has_sensitive_part(split_on(n, '_')) || ends_with(
        n,
        seq!['_', 'k', 'e', 'y'],
    ) || ends_with(n, seq!['_', 't', 'o', 'k', 'e', 'n']) || has_sensitive_pair(split_on(n, '_'))
}

fn eq_lit(s: &[char], lit: &[char]) -> (res: bool)
    ensures
        res == (s@ == lit@),
{
    chars_eq(s, lit)
}

fn is_sensitive_key_name_vec(n: &[char]) -> (res: bool)
    ensures
        res == is_sensitive_key_name(n@),
{
    let a: [char; 5] = ['t', 'o', 'k', 'e', 'n'];
    let b: [char; 7] = ['a', 'p', 'i', '_', 'k', 'e', 'y'];
    let c: [char; 6] = ['s', 'e', 'c', 'r', 'e', 't'];
    let d: [char; 8] = ['p', 'a', 's', 's', 'w', 'o', 'r', 'd'];
    let e: [char; 13] = ['a', 'u', 't', 'h', 'o', 'r', 'i', 'z', 'a', 't', 'i', 'o', 'n'];
    assert(a@ =~= lit_token());
    assert(b@ =~= seq!['a', 'p', 'i', '_', 'k', 'e', 'y']);
    assert(c@ =~= seq!['s', 'e', 'c', 'r', 'e', 't']);
    assert(d@ =~= seq!['p', 'a', 's', 's', 'w', 'o', 'r', 'd']);
    assert(e@ =~= seq!['a', 'u', 't', 'h', 'o', 'r', 'i', 'z', 'a', 't', 'i', 'o', 'n']);
    eq_lit(n, &a) || eq_lit(n, &b) || eq_lit(n, &c) || eq_lit(n, &d) || eq_lit(n, &e)
}

fn is_sensitive_part_vec(p: &[char]) -> (res: bool)
    ensures
        res == is_sensitive_part(p@),
{
    let a: [char; 6] = ['s', 'e', 'c', 'r', 'e', 't'];
    let b: [char; 8] = ['p', 'a', 's', 's', 'w', 'o', 'r', 'd'];
    let c: [char; 6] = ['p', 'a', 's', 's', 'w', 'd'];
    let d: [char; 10] = ['c', 'r', 'e', 'd', 'e', 'n', 't', 'i', 'a', 'l'];
    let e: [char; 11] = ['c', 'r', 'e', 'd', 'e', 'n', 't', 'i', 'a', 'l', 's'];
    let f: [char; 13] = ['a', 'u', 't', 'h', 'o', 'r', 'i', 'z', 'a', 't', 'i', 'o', 'n'];
    assert(a@ =~= seq!['s', 'e', 'c', 'r', 'e', 't']);
    assert(b@ =~= seq!['p', 'a', 's', 's', 'w', 'o', 'r', 'd']);
    assert(c@ =~= seq!['p', 'a', 's', 's', 'w', 'd']);
    assert(d@ =~= seq!['c', 'r', 'e', 'd', 'e', 'n', 't', 'i', 'a', 'l']);
    assert(e@ =~= seq!['c', 'r', 'e', 'd', 'e', 'n', 't', 'i', 'a', 'l', 's']);
    assert(f@ =~= seq!['a', 'u', 't', 'h', 'o', 'r', 'i', 'z', 'a', 't', 'i', 'o', 'n']);
    eq_lit(p, &a) || eq_lit(p, &b) || eq_lit(p, &c) || eq_lit(p, &d) || eq_lit(p, &e) || eq_lit(
        p,
        &f,
    )
}

fn is_sensitive_pair_vec(a: &[char], b: &[char]) -> (res: bool)
    ensures
        res == is_sensitive_pair(a@, b@),
{
    let key: [char; 3] = ['k', 'e', 'y'];
    let api: [char; 3] = ['a', 'p', 'i'];
    let access: [char; 6] = ['a', 'c', 'c', 'e', 's', 's'];
    let private: [char; 7] = ['p', 'r', 'i', 'v', 'a', 't', 'e'];
    assert(key@ =~= lit_key());
    assert(api@ =~= seq!['a', 'p', 'i']);
    assert(access@ =~= seq!['a', 'c', 'c', 'e', 's', 's']);
    assert(private@ =~= seq!['p', 'r', 'i', 'v', 'a', 't', 'e']);
    eq_lit(b, &key) && (eq_lit(a, &api) || eq_lit(a, &access) || eq_lit(a, &private))
}

fn is_sensitive_identifier_vec(n: &[char]) -> (res: bool)
    ensures
        res == is_sensitive_identifier(n@),
{
    let parts = split_chars(n, '_');
    let ghost ps = split_on(n@, '_');
    if is_sensitive_key_name_vec(n) {
        return true;
    }
    let mut i: usize = 0;
    while i < parts.len()
        invariant
            i <= parts.len(),
            vviews(parts@) == ps,
            ps == split_on(n@, '_'),
            forall|k: int| 0 <= k < i ==> !is_sensitive_part(#[trigger] ps[k]),
        decreases parts.len() - i,
    {
        assert(ps[i as int] == parts@[i as int]@);
        if is_sensitive_part_vec(&parts[i]) {
            assert(is_sensitive_part(ps[i as int]));
            assert(has_sensitive_part(ps));
            return true;
        }
        i = i + 1;
    }
    let k: [char; 4] = ['_', 'k', 'e', 'y'];
    let t: [char; 6] = ['_', 't', 'o', 'k', 'e', 'n'];
    assert(k@ =~= seq!['_', 'k', 'e', 'y']);
    assert(t@ =~= seq!['_', 't', 'o', 'k', 'e', 'n']);
    if ends_with_chars(n, &k) || ends_with_chars(n, &t) {
        return true;
    }
    let mut j: usize = 1;
    while j < parts.len()
        invariant
            1 <= j,
            vviews(parts@) == ps,
            ps == split_on(n@, '_'),
            forall|k: int| 0 <= k && k + 1 < j && k + 1 < ps.len() ==> !is_sensitive_pair(#[trigger] ps[k], ps[k + 1]),
        decreases parts.len() - j,
    {
        assert(ps[j - 1] == parts@[j - 1]@);
        assert(ps[j as int] == parts@[j as int]@);
        if is_sensitive_pair_vec(&parts[j - 1], &parts[j]) {
            assert(is_sensitive_pair(ps[j - 1], ps[(j - 1) + 1]));
            assert(has_sensitive_pair(ps));
            return true;
        }
        j = j + 1;
    }
    false
}

// ---------------------------------------------------------------------------------------
// Token classification
// ---------------------------------------------------------------------------------------

/// A bare label such as `secret:` or `"private_key"`; `token` alone is not enough.
pub open spec fn is_sensitive_key(token: Seq<char>) -> bool {
    let key = key_of(token);
    !eq_ignore_case(key, lit_token()) && is_sensitive_identifier(ascii_lower(key))
}

/// The left side of an assignment that makes its value sensitive.
pub open spec fn is_sensitive_assignment_key(token: Seq<char>) -> bool {
    let n = normalize_identifier(key_of(token));
    n == lit_key() || is_sensitive_identifier(n)
}

pub open spec fn is_assign_char(c: char) -> bool {
    c == ':' || c == '='
}

/// From position `j` of `t`, the first assignment character whose left side is a sensitive
/// key: `Some(value is present)`.
pub open spec fn assignment_from(t: Seq<char>, j: int) -> Option<bool>
    decreases t.len() - j,
{
    if j < 0 || j >= t.len() {
        None
    } else if is_assign_char(t[j]) && is_sensitive_assignment_key(trim_wrappers(t.take(j))) {
        Some(trim_wrappers(t.skip(j + 1)).len() > 0)
    } else {
        assignment_from(t, j + 1)
    }
}

/// `Some(has_value)` when the token is a sensitive assignment such as `api_key=...`.
pub open spec fn sensitive_assignment(token: Seq<char>) -> Option<bool> {
    assignment_from(trim_wrappers(token), 0)
}

/// The first assignment character at or after `j`.
pub open spec fn first_assign_from(t: Seq<char>, j: int) -> Option<int>
    decreases t.len() - j,
{
    if j < 0 || j >= t.len() {
        None
    } else if is_assign_char(t[j]) {
        Some(j)
    } else {
        first_assign_from(t, j + 1)
    }
}

pub open spec fn lit_authorization() -> Seq<char> {
    seq!['a', 'u', 't', 'h', 'o', 'r', 'i', 'z', 'a', 't', 'i', 'o', 'n']
}

/// The label before the first assignment character names an authorization header.
pub open spec fn is_authorization_key(token: Seq<char>) -> bool {
    let t = trim_wrappers(token);
    let key = match first_assign_from(t, 0) {
        Some(i) => t.take(i),
        None => t,
    };
    split_on(normalize_identifier(key_of(key)), '_').contains(lit_authorization())
}

pub open spec fn lit_bearer() -> Seq<char> {
    seq!['b', 'e', 'a', 'r', 'e', 'r']
}

pub open spec fn lit_basic() -> Seq<char> {
    seq!['b', 'a', 's', 'i', 'c']
}

/// `Authorization=Bearer`: the scheme is in the token and the credential follows.
pub open spec fn has_embedded_authorization_scheme(token: Seq<char>) -> bool {
    let t = trim_wrappers(token);
    match first_assign_from(t, 0) {
        None => false,
        Some(i) => is_authorization_key(t) && (eq_ignore_case(
            trim_wrappers(t.skip(i + 1)),
            lit_bearer(),
        ) || eq_ignore_case(trim_wrappers(t.skip(i + 1)), lit_basic())),
    }
}

pub open spec fn is_auth_scheme_word(token: Seq<char>) -> bool {
    eq_ignore_case(key_of(token), lit_bearer()) || eq_ignore_case(key_of(token), lit_basic())
}

pub open spec fn is_bearer_word(token: Seq<char>) -> bool {
    eq_ignore_case(key_of(token), lit_bearer())
}

/// Provider keys: `sk-...` and `tsk-...`, in any ASCII case.
pub open spec fn is_secret_token(token: Seq<char>) -> bool {
    let t = ascii_lower(trim_wrappers(token));
    starts_with(t, seq!['s', 'k', '-']) || starts_with(t, seq!['t', 's', 'k', '-'])
}

/// A token made only of `:`, `=`, `,` and `;`.
pub open spec fn is_separator(token: Seq<char>) -> bool {
    token.len() > 0 && forall|i: int| 0 <= i < token.len() ==> separator_set().contains(#[trigger] token[i])
}

/// `key` or `token` alone, which is sensitive only when a connector follows.
pub open spec fn is_bare_sensitive_label(token: Seq<char>) -> bool {
    let l = ascii_lower(key_of(token));
    l == lit_key() || l == lit_token()
}

/// Words that connect a label to its value: separators, `is`, `was`.
pub open spec fn is_redaction_connector(token: Seq<char>) -> bool {
    is_separator(token) || eq_ignore_case(key_of(token), seq!['i', 's']) || eq_ignore_case(
        key_of(token),
        seq!['w', 'a', 's'],
    )
}

fn is_sensitive_key_vec(token: &[char]) -> (res: bool)
    ensures
        res == is_sensitive_key(token@),
{
    let key = key_of_vec(token);
    let tok: [char; 5] = ['t', 'o', 'k', 'e', 'n'];
    assert(tok@ =~= lit_token());
    if eq_ignore_ascii_case(&key, &tok) {
        return false;
    }
    let lower = to_ascii_lower(&key);
    is_sensitive_identifier_vec(&lower)
}

fn is_sensitive_assignment_key_vec(token: &[char]) -> (res: bool)
    ensures
        res == is_sensitive_assignment_key(token@),
{
    let key = key_of_vec(token);
    let n = normalize_identifier_vec(&key);
    let k: [char; 3] = ['k', 'e', 'y'];
    assert(k@ =~= lit_key());
    eq_lit(&n, &k) || is_sensitive_identifier_vec(&n)
}

fn sensitive_assignment_vec(token: &[char]) -> (res: Option<bool>)
    ensures
        res == sensitive_assignment(token@),
{
    let t = trim_wrappers_vec(token);
    let mut j: usize = 0;
    while j < t.len()
        invariant
            j <= t.len(),
            t@ == trim_wrappers(token@),
            assignment_from(t@, j as int) == assignment_from(t@, 0),
        decreases t.len() - j,
    {
        let c = t[j];
        if c == ':' || c == '=' {
            let prefix = slice_vec(&t, 0, j);
            assert(prefix@ =~= t@.take(j as int));
            let left = trim_wrappers_vec(&prefix);
            if is_sensitive_assignment_key_vec(&left) {
                let right = slice_vec(&t, j + 1, t.len());
                assert(right@ =~= t@.skip(j + 1));
                let value = trim_wrappers_vec(&right);
                assert(assignment_from(t@, j as int) == Some(value@.len() > 0));
                return Some(value.len() > 0);
            }
        }
        assert(assignment_from(t@, j as int) == assignment_from(t@, j + 1));
        j = j + 1;
    }
    None
}

fn first_assign_vec(t: &[char]) -> (res: Option<usize>)
    ensures
        match first_assign_from(t@, 0) {
            Some(i) => res == Some(i as usize) && 0 <= i < t@.len(),
            None => res is None,
        },
{
    let mut j: usize = 0;
    while j < t.len()
        invariant
            j <= t.len(),
            first_assign_from(t@, j as int) == first_assign_from(t@, 0),
        decreases t.len() - j,
    {
        if t[j] == ':' || t[j] == '=' {
            return Some(j);
        }
        j = j + 1;
    }
    None
}

fn contains_lit(parts: &Vec<Vec<char>>, lit: &[char]) -> (res: bool)
    ensures
        res == vviews(parts@).contains(lit@),
{
    let mut i: usize = 0;
    while i < parts.len()
        invariant
            i <= parts.len(),
            forall|k: int| 0 <= k < i ==> vviews(parts@)[k] != lit@,
        decreases parts.len() - i,
    {
        if eq_lit(&parts[i], lit) {
            assert(vviews(parts@)[i as int] == lit@);
            return true;
        }
        i = i + 1;
    }
    false
}

fn is_authorization_key_vec(token: &[char]) -> (res: bool)
    ensures
        res == is_authorization_key(token@),
{
    let t = trim_wrappers_vec(token);
    let key = match first_assign_vec(&t) {
        Some(i) => {
            let k = slice_vec(&t, 0, i);
            assert(k@ =~= t@.take(i as int));
            k
        },
        None => t.clone(),
    };
    let k2 = key_of_vec(&key);
    let n = normalize_identifier_vec(&k2);
    let parts = split_chars(&n, '_');
    let lit: [char; 13] = ['a', 'u', 't', 'h', 'o', 'r', 'i', 'z', 'a', 't', 'i', 'o', 'n'];
    assert(lit@ =~= lit_authorization());
    contains_lit(&parts, &lit)
}

fn has_embedded_authorization_scheme_vec(token: &[char]) -> (res: bool)
    ensures
        res == has_embedded_authorization_scheme(token@),
{
    let t = trim_wrappers_vec(token);
    match first_assign_vec(&t) {
        None => false,
        Some(i) => {
            assert(i < t.len());
            if !is_authorization_key_vec(&t) {
                return false;
            }
            let right = slice_vec(&t, i + 1, t.len());
            assert(right@ =~= t@.skip(i + 1));
            let value = trim_wrappers_vec(&right);
            let bearer: [char; 6] = ['b', 'e', 'a', 'r', 'e', 'r'];
            let basic: [char; 5] = ['b', 'a', 's', 'i', 'c'];
            assert(bearer@ =~= lit_bearer());
            assert(basic@ =~= lit_basic());
            eq_ignore_ascii_case(&value, &bearer) || eq_ignore_ascii_case(&value, &basic)
        },
    }
}

fn is_auth_scheme_word_vec(token: &[char]) -> (res: bool)
    ensures
        res == is_auth_scheme_word(token@),
{
    let key = key_of_vec(token);
    let bearer: [char; 6] = ['b', 'e', 'a', 'r', 'e', 'r'];
    let basic: [char; 5] = ['b', 'a', 's', 'i', 'c'];
    assert(bearer@ =~= lit_bearer());
    assert(basic@ =~= lit_basic());
    eq_ignore_ascii_case(&key, &bearer) || eq_ignore_ascii_case(&key, &basic)
}

fn is_bearer_word_vec(token: &[char]) -> (res: bool)
    ensures
        res == is_bearer_word(token@),
{
    let key = key_of_vec(token);
    let bearer: [char; 6] = ['b', 'e', 'a', 'r', 'e', 'r'];
    assert(bearer@ =~= lit_bearer());
    eq_ignore_ascii_case(&key, &bearer)
}

fn is_secret_token_vec(token: &[char]) -> (res: bool)
    ensures
        res == is_secret_token(token@),
{
    let t = trim_wrappers_vec(token);
    let lower = to_ascii_lower(&t);
    let sk: [char; 3] = ['s', 'k', '-'];
    let tsk: [char; 4] = ['t', 's', 'k', '-'];
    assert(sk@ =~= seq!['s', 'k', '-']);
    assert(tsk@ =~= seq!['t', 's', 'k', '-']);
    starts_with_chars(&lower, &sk) || starts_with_chars(&lower, &tsk)
}

fn is_separator_vec(token: &[char]) -> (res: bool)
    ensures
        res == is_separator(token@),
{
    if token.len() == 0 {
        return false;
    }
    let set: [char; 4] = [':', '=', ',', ';'];
    assert(set@ =~= separator_set());
    let mut i: usize = 0;
    while i < token.len()
        invariant
            i <= token.len(),
            set@ == separator_set(),
            forall|k: int| 0 <= k < i ==> separator_set().contains(#[trigger] token@[k]),
        decreases token.len() - i,
    {
        if !in_set(token[i], &set) {
            return false;
        }
        i = i + 1;
    }
    true
}

fn is_bare_sensitive_label_vec(token: &[char]) -> (res: bool)
    ensures
        res == is_bare_sensitive_label(token@),
{
    let key = key_of_vec(token);
    let l = to_ascii_lower(&key);
    let k: [char; 3] = ['k', 'e', 'y'];
    let t: [char; 5] = ['t', 'o', 'k', 'e', 'n'];
    assert(k@ =~= lit_key());
    assert(t@ =~= lit_token());
    eq_lit(&l, &k) || eq_lit(&l, &t)
}

fn is_redaction_connector_vec(token: &[char]) -> (res: bool)
    ensures
        res == is_redaction_connector(token@),
{
    if is_separator_vec(token) {
        return true;
    }
    let key = key_of_vec(token);
    let is: [char; 2] = ['i', 's'];
    let was: [char; 3] = ['w', 'a', 's'];
    assert(is@ =~= seq!['i', 's']);
    assert(was@ =~= seq!['w', 'a', 's']);
    eq_ignore_ascii_case(&key, &is) || eq_ignore_ascii_case(&key, &was)
}

// ---------------------------------------------------------------------------------------
// Lines
// ---------------------------------------------------------------------------------------

pub open spec fn indent_width(c: char) -> nat {
    if c == '\t' {
        4
    } else {
        1
    }
}

/// Width of the leading whitespace of a line; a tab counts as four columns.
pub open spec fn leading_ws(s: Seq<char>) -> nat
    decreases s.len(),
{
    if s.len() > 0 && is_ws(s[0]) {
        indent_width(s[0]) + leading_ws(s.drop_first())
    } else {
        0
    }
}

proof fn lemma_leading_ws_skip(s: Seq<char>, i: int)
    requires
        0 <= i < s.len(),
        is_ws(s[i]),
    ensures
        leading_ws(s.skip(i)) == indent_width(s[i]) + leading_ws(s.skip(i + 1)),
{
    assert(s.skip(i).drop_first() =~= s.skip(i + 1));
}

fn leading_whitespace(s: &[char]) -> (res: u128)
    ensures
        res as nat == leading_ws(s@),
{
    let mut acc: u128 = 0;
    let mut i: usize = 0;
    proof {
        assert(s@.skip(0) =~= s@);
    }
    while i < s.len() && is_whitespace(s[i])
        invariant
            i <= s.len(),
            acc <= 4 * i,
            acc + leading_ws(s@.skip(i as int)) == leading_ws(s@),
        decreases s.len() - i,
    {
        proof {
            lemma_leading_ws_skip(s@, i as int);
        }
        if s[i] == '\t' {
            acc = acc + 4;
        } else {
            acc = acc + 1;
        }
        i = i + 1;
    }
    proof {
        if i < s.len() {
            assert(s@.skip(i as int)[0] == s@[i as int]);
        }
    }
    acc
}

pub open spec fn lit_begin_marker() -> Seq<char> {
    seq!['-', '-', '-', '-', '-', 'B', 'E', 'G', 'I', 'N', ' ']
}

pub open spec fn lit_end_marker() -> Seq<char> {
    seq!['-', '-', '-', '-', '-', 'E', 'N', 'D', ' ']
}

pub open spec fn lit_private_key() -> Seq<char> {
    seq!['P', 'R', 'I', 'V', 'A', 'T', 'E', ' ', 'K', 'E', 'Y']
}

/// `-----BEGIN ... PRIVATE KEY`, in any ASCII case.
pub open spec fn is_private_key_begin(line: Seq<char>) -> bool {
    contains_seq(ascii_upper(line), lit_begin_marker()) && contains_seq(
        ascii_upper(line),
        lit_private_key(),
    )
}

/// `-----END ... PRIVATE KEY`, in any ASCII case.
pub open spec fn is_private_key_end(line: Seq<char>) -> bool {
    contains_seq(ascii_upper(line), lit_end_marker()) && contains_seq(
        ascii_upper(line),
        lit_private_key(),
    )
}

fn is_private_key_begin_vec(line: &[char]) -> (res: bool)
    ensures
        res == is_private_key_begin(line@),
{
    let upper = to_ascii_upper(line);
    let begin: [char; 11] = ['-', '-', '-', '-', '-', 'B', 'E', 'G', 'I', 'N', ' '];
    let pk: [char; 11] = ['P', 'R', 'I', 'V', 'A', 'T', 'E', ' ', 'K', 'E', 'Y'];
    assert(begin@ =~= lit_begin_marker());
    assert(pk@ =~= lit_private_key());
    contains_chars(&upper, &begin) && contains_chars(&upper, &pk)
}

fn is_private_key_end_vec(line: &[char]) -> (res: bool)
    ensures
        res == is_private_key_end(line@),
{
    let upper = to_ascii_upper(line);
    let end: [char; 9] = ['-', '-', '-', '-', '-', 'E', 'N', 'D', ' '];
    let pk: [char; 11] = ['P', 'R', 'I', 'V', 'A', 'T', 'E', ' ', 'K', 'E', 'Y'];
    assert(end@ =~= lit_end_marker());
    assert(pk@ =~= lit_private_key());
    contains_chars(&upper, &end) && contains_chars(&upper, &pk)
}

// ---------------------------------------------------------------------------------------
// Redaction of one line, word by word
// ---------------------------------------------------------------------------------------

/// What the word scan of one line carries from word to word and reports at its end.
#[derive(Clone, Copy, PartialEq, Eq, Debug)]
pub struct LineScan {
    /// The next word is a value to hide.
    pub redact_next: bool,
    /// The pending value belongs to an authorization header, so `Bearer`/`Basic` are hidden
    /// and the value after them too.
    pub authorization_scheme: bool,
    /// The line holds a sensitive assignment, so deeper-indented lines that follow are
    /// hidden as its continuation.
    pub continuation: bool,
}

/// One word of a line: what is emitted for it, and the scan state after it. `next` is the
/// following word of the same line, if any.
pub open spec fn token_step(tok: Seq<char>, next: Option<Seq<char>>, st: LineScan) -> (
    Seq<char>,
    LineScan,
) {
    if st.redact_next {
        if is_bearer_word(tok) || (st.authorization_scheme && is_auth_scheme_word(tok)) {
            (redacted_marker(), st)
        } else if is_separator(tok) || is_redaction_connector(tok) {
            (tok, st)
        } else {
            (redacted_marker(), LineScan { redact_next: false, authorization_scheme: false, ..st })
        }
    } else if sensitive_assignment(tok) is Some {
        let next_value = !sensitive_assignment(tok)->0 || has_embedded_authorization_scheme(tok);
        (
            redacted_marker(),
            LineScan {
                redact_next: next_value,
                authorization_scheme: is_authorization_key(tok) && next_value,
                continuation: true,
            },
        )
    } else if is_sensitive_key(tok) || (is_bare_sensitive_label(tok) && next is Some
        && is_redaction_connector(next->0)) {
        (
            redacted_marker(),
            LineScan {
                redact_next: true,
                authorization_scheme: is_authorization_key(tok),
                ..st
            },
        )
    } else if is_bearer_word(tok) {
        (redacted_marker(), LineScan { redact_next: true, ..st })
    } else if is_secret_token(tok) {
        (redacted_marker(), st)
    } else {
        (tok, st)
    }
}

/// The words from position `i` on: what is emitted for each, and the final scan state.
pub open spec fn scan_tokens(toks: Seq<Seq<char>>, i: int, st: LineScan) -> (
    Seq<Seq<char>>,
    LineScan,
)
    decreases toks.len() - i,
{
    if i < 0 || i >= toks.len() {
        (seq![], st)
    } else {
        let next = if i + 1 < toks.len() {
            Some(toks[i + 1])
        } else {
            None
        };
        let step = token_step(toks[i], next, st);
        let rest = scan_tokens(toks, i + 1, step.1);
        (seq![step.0] + rest.0, rest.1)
    }
}

/// A line redacted word by word (words joined by single spaces), and the scan state after it.
pub open spec fn redact_line(line: Seq<char>, redact_next: bool, authorization_scheme: bool) -> (
    Seq<char>,
    LineScan,
) {
    let r = scan_tokens(
        words(line),
        0,
        LineScan { redact_next, authorization_scheme, continuation: false },
    );
    (join(r.0, seq![' ']), r.1)
}

/// The characters of an optional word.
pub open spec fn opt_chars(o: Option<&Vec<char>>) -> Option<Seq<char>> {
    match o {
        Some(v) => Some(v@),
        None => None,
    }
}

fn token_step_vec(tok: &[char], next: Option<&Vec<char>>, st: LineScan) -> (res: (
    Vec<char>,
    LineScan,
))
    ensures
        res.0@ == token_step(tok@, opt_chars(next), st).0,
        res.1 == token_step(tok@, opt_chars(next), st).1,
{
    let ghost nv = opt_chars(next);
    if st.redact_next {
        if is_bearer_word_vec(tok) || (st.authorization_scheme && is_auth_scheme_word_vec(tok)) {
            return (redacted_marker_vec(), st);
        }
        if is_separator_vec(tok) || is_redaction_connector_vec(tok) {
            let kept = slice_vec(tok, 0, tok.len());
            assert(kept@ =~= tok@);
            return (kept, st);
        }
        return (
            redacted_marker_vec(),
            LineScan { redact_next: false, authorization_scheme: false, ..st },
        );
    }
    match sensitive_assignment_vec(tok) {
        Some(has_value) => {
            let next_value = !has_value || has_embedded_authorization_scheme_vec(tok);
            let auth = is_authorization_key_vec(tok) && next_value;
            return (
                redacted_marker_vec(),
                LineScan { redact_next: next_value, authorization_scheme: auth, continuation: true },
            );
        },
        None => {},
    }
    let label_then_connector = match next {
        Some(n) => is_bare_sensitive_label_vec(tok) && is_redaction_connector_vec(n),
        None => false,
    };
    if is_sensitive_key_vec(tok) || label_then_connector {
        let auth = is_authorization_key_vec(tok);
        return (
            redacted_marker_vec(),
            LineScan { redact_next: true, authorization_scheme: auth, ..st },
        );
    }
    if is_bearer_word_vec(tok) {
        return (redacted_marker_vec(), LineScan { redact_next: true, ..st });
    }
    if is_secret_token_vec(tok) {
        return (redacted_marker_vec(), st);
    }
    let kept = slice_vec(tok, 0, tok.len());
    assert(kept@ =~= tok@);
    (kept, st)
}

fn redact_line_vec(line: &[char], redact_next: bool, authorization_scheme: bool) -> (res: (
    Vec<char>,
    LineScan,
))
    ensures
        res.0@ == redact_line(line@, redact_next, authorization_scheme).0,
        res.1 == redact_line(line@, redact_next, authorization_scheme).1,
{
    let toks = split_whitespace(line);
    let ghost ts = words(line@);
    let st0 = LineScan { redact_next, authorization_scheme, continuation: false };
    let ghost full = scan_tokens(ts, 0, st0);
    let mut out: Vec<Vec<char>> = Vec::new();
    let mut st = st0;
    let mut i: usize = 0;
    proof {
        assert(vviews(out@) + scan_tokens(ts, 0, st).0 =~= full.0);
    }
    while i < toks.len()
        invariant
            i <= toks.len(),
            vviews(toks@) == ts,
            full == scan_tokens(ts, 0, st0),
            vviews(out@) + scan_tokens(ts, i as int, st).0 == full.0,
            scan_tokens(ts, i as int, st).1 == full.1,
        decreases toks.len() - i,
    {
        let next = if i + 1 < toks.len() {
            Some(&toks[i + 1])
        } else {
            None
        };
        proof {
            assert(ts[i as int] == toks@[i as int]@);
            if i + 1 < toks.len() {
                assert(ts[i + 1] == toks@[i + 1]@);
            }
        }
        let (o, st2) = token_step_vec(&toks[i], next, st);
        let ghost before = vviews(out@);
        out.push(o);
        proof {
            assert(vviews(out@) =~= before.push(o@));
            let rest = scan_tokens(ts, i + 1, st2);
            assert(before + scan_tokens(ts, i as int, st).0 =~= before + (seq![o@] + rest.0));
            assert(vviews(out@) + rest.0 =~= before + (seq![o@] + rest.0));
        }
        st = st2;
        i = i + 1;
    }
    proof {
        assert(vviews(out@) + scan_tokens(ts, i as int, st).0 =~= vviews(out@));
    }
    let sp: [char; 1] = [' '];
    assert(sp@ =~= seq![' ']);
    let joined = join_chars(&out, &sp);
    (joined, st)
}

// ---------------------------------------------------------------------------------------
// Redaction of a whole text, line by line
// ---------------------------------------------------------------------------------------

/// What the line walk carries from line to line: inside a private-key block; the next line
/// holds a pending value; that value follows an authorization label; the indentation of the
/// sensitive assignment whose continuation lines are hidden; a continuation line was hidden.
pub type WalkState = (bool, bool, bool, Option<nat>, bool);

pub open spec fn initial_walk() -> WalkState {
    (false, false, false, None, false)
}

/// The state after the continuation check: unchanged without a pending continuation;
/// otherwise the continuation ends, and if it had hidden lines the pending value ends too.
pub open spec fn leave_continuation(st: WalkState) -> WalkState {
    let (inside, rn, auth, cont, started) = st;
    if cont is Some {
        (inside, if started {
            false
        } else {
            rn
        }, if started {
            false
        } else {
            auth
        }, None, false)
    } else {
        st
    }
}

/// One line: what is emitted for it, and the walk state after it.
pub open spec fn line_step(st: WalkState, line: Seq<char>) -> (Seq<char>, WalkState) {
    let (inside, rn, auth, cont, started) = st;
    if cont is Some && all_ws(line) {
        (seq![], st)
    } else if cont is Some && leading_ws(line) > cont->0 {
        (redacted_marker(), (inside, rn, auth, cont, true))
    } else {
        let st1 = leave_continuation(st);
        let (inside1, rn1, auth1, cont1, started1) = st1;
        let toks = words(line);
        if rn1 {
            if toks.len() == 0 {
                (seq![], st1)
            } else if toks.len() == 1 && (is_separator(toks[0]) || is_redaction_connector(
                toks[0],
            )) {
                (toks[0], st1)
            } else if toks.len() == 1 && (is_bearer_word(toks[0]) || (auth1 && is_auth_scheme_word(
                toks[0],
            ))) {
                (redacted_marker(), st1)
            } else {
                (
                    if is_redaction_connector(toks[0]) {
                        toks[0] + seq![' '] + redacted_marker()
                    } else {
                        redacted_marker()
                    },
                    (inside1, false, false, cont1, started1),
                )
            }
        } else if inside1 || is_private_key_begin(line) {
            (redacted_marker(), (!is_private_key_end(line), false, false, cont1, started1))
        } else {
            let r = redact_line(line, rn1, auth1);
            (
                r.0,
                (
                    inside1,
                    r.1.redact_next,
                    r.1.authorization_scheme,
                    if r.1.continuation {
                        Some(leading_ws(line))
                    } else {
                        None
                    },
                    started1,
                ),
            )
        }
    }
}

/// The lines from position `i` on, each redacted.
pub open spec fn walk_lines(ls: Seq<Seq<char>>, i: int, st: WalkState) -> Seq<Seq<char>>
    decreases ls.len() - i,
{
    if i < 0 || i >= ls.len() {
        seq![]
    } else {
        let step = line_step(st, ls[i]);
        seq![step.0] + walk_lines(ls, i + 1, step.1)
    }
}

/// The redacted lines of a text; a text that ends with a newline gets an empty last line,
/// so that joining with newlines keeps the final newline.
pub open spec fn redacted_lines(text: Seq<char>) -> Seq<Seq<char>> {
    walk_lines(lines(text), 0, initial_walk()) + if text.len() > 0 && text.last() == '\n' {
        seq![seq![]]
    } else {
        seq![]
    }
}

/// The redacted text.
pub open spec fn redacted(text: Seq<char>) -> Seq<char> {
    join(redacted_lines(text), seq!['\n'])
}

#[derive(Clone, Copy)]
struct Walk {
    inside_private_key: bool,
    redact_next_line: bool,
    authorization_scheme: bool,
    continuation_indent: Option<u128>,
    continuation_started: bool,
}

impl Walk {
    spec fn state(self) -> WalkState {
        (
            self.inside_private_key,
            self.redact_next_line,
            self.authorization_scheme,
            match self.continuation_indent {
                Some(n) => Some(n as nat),
                None => None,
            },
            self.continuation_started,
        )
    }
}

fn line_step_vec(st: Walk, line: &[char]) -> (res: (Vec<char>, Walk))
    ensures
        res.0@ == line_step(st.state(), line@).0,
        res.1.state() == line_step(st.state(), line@).1,
{
    let mut st = st;
    let ghost st0 = st.state();
    match st.continuation_indent {
        Some(anchor) => {
            if all_whitespace(line) {
                return (Vec::new(), st);
            }
            let indent = leading_whitespace(line);
            if indent > anchor {
                st.continuation_started = true;
                return (redacted_marker_vec(), st);
            }
            st.continuation_indent = None;
            if st.continuation_started {
                st.redact_next_line = false;
                st.authorization_scheme = false;
            }
            st.continuation_started = false;
        },
        None => {},
    }
    assert(st.state() == leave_continuation(st0));
    let toks = split_whitespace(line);
    let ghost ts = words(line@);
    if st.redact_next_line {
        if toks.len() == 0 {
            return (Vec::new(), st);
        }
        assert(toks@[0]@ == ts[0]);
        let first = &toks[0];
        if toks.len() == 1 && (is_separator_vec(first) || is_redaction_connector_vec(first)) {
            let kept = slice_vec(first, 0, first.len());
            assert(kept@ =~= first@);
            return (kept, st);
        }
        if toks.len() == 1 && (is_bearer_word_vec(first) || (st.authorization_scheme
            && is_auth_scheme_word_vec(first))) {
            return (redacted_marker_vec(), st);
        }
        let out = if is_redaction_connector_vec(first) {
            let mut o = slice_vec(first, 0, first.len());
            o.push(' ');
            let marker = redacted_marker_vec();
            append_chars(&mut o, &marker);
            assert(o@ =~= ts[0] + seq![' '] + redacted_marker());
            o
        } else {
            redacted_marker_vec()
        };
        st.redact_next_line = false;
        st.authorization_scheme = false;
        return (out, st);
    }
    if st.inside_private_key || is_private_key_begin_vec(line) {
        st.inside_private_key = !is_private_key_end_vec(line);
        st.redact_next_line = false;
        st.authorization_scheme = false;
        return (redacted_marker_vec(), st);
    }
    let (out, scan) = redact_line_vec(line, st.redact_next_line, st.authorization_scheme);
    st.redact_next_line = scan.redact_next;
    st.authorization_scheme = scan.authorization_scheme;
    if scan.continuation {
        let indent = leading_whitespace(line);
        st.continuation_indent = Some(indent);
    } else {
        st.continuation_indent = None;
    }
    (out, st)
}

/// Replaces secrets in `value` with `<redacted>` and keeps everything else.
///
/// Words are separated by whitespace; within each line the kept and replaced words are
/// joined by single spaces. Lines are joined by `\n`; a final newline is kept.
pub fn redact(value: &str) -> (res: String)
    ensures
        res@ == redacted(value@),
{
    let chars = chars_of(value);
    let ls = split_lines(&chars);
    let ghost lsv = lines(value@);
    let mut st = Walk {
        inside_private_key: false,
        redact_next_line: false,
        authorization_scheme: false,
        continuation_indent: None,
        continuation_started: false,
    };
    let ghost full = walk_lines(lsv, 0, initial_walk());
    let mut out: Vec<Vec<char>> = Vec::new();
    let mut i: usize = 0;
    proof {
        assert(vviews(out@) + walk_lines(lsv, 0, st.state()) =~= full);
    }
    while i < ls.len()
        invariant
            i <= ls.len(),
            vviews(ls@) == lsv,
            full == walk_lines(lsv, 0, initial_walk()),
            vviews(out@) + walk_lines(lsv, i as int, st.state()) == full,
        decreases ls.len() - i,
    {
        proof {
            assert(lsv[i as int] == ls@[i as int]@);
        }
        let (o, st2) = line_step_vec(st, &ls[i]);
        let ghost before = vviews(out@);
        out.push(o);
        proof {
            assert(vviews(out@) =~= before.push(o@));
            let rest = walk_lines(lsv, i + 1, st2.state());
            assert(before + walk_lines(lsv, i as int, st.state()) =~= before + (seq![o@] + rest));
            assert(vviews(out@) + rest =~= before + (seq![o@] + rest));
        }
        st = st2;
        i = i + 1;
    }
    proof {
        assert(vviews(out@) + walk_lines(lsv, i as int, st.state()) =~= vviews(out@));
    }
    if chars.len() > 0 && chars[chars.len() - 1] == '\n' {
        let ghost before = vviews(out@);
        out.push(Vec::new());
        proof {
            assert(vviews(out@) =~= before + seq![seq![]]);
        }
    } else {
        proof {
            assert(vviews(out@) =~= vviews(out@) + seq![]);
        }
    }
    let nl: [char; 1] = ['\n'];
    assert(nl@ =~= seq!['\n']);
    let joined = join_chars(&out, &nl);
    string_from_chars(&joined)
}

// ---------------------------------------------------------------------------------------
// Paths
// ---------------------------------------------------------------------------------------

/// The text pushed for one path component: normal components are redacted.
pub open spec fn redacted_component(c: (u8, Seq<char>)) -> Seq<char> {
    if c.0 == COMPONENT_ROOT_DIR {
        seq!['/']
    } else if c.0 == COMPONENT_CUR_DIR {
        seq!['.']
    } else if c.0 == COMPONENT_PARENT_DIR {
        seq!['.', '.']
    } else if c.0 == COMPONENT_NORMAL {
        redacted(c.1)
    } else {
        c.1
    }
}

/// A path rebuilt from its components, each normal component redacted.
pub open spec fn redacted_path(path: Seq<char>) -> Seq<char> {
    path_components(path).fold_left(
        seq![],
        |buf: Seq<char>, c: (u8, Seq<char>)| push_path(buf, redacted_component(c)),
    )
}

/// Redacts each normal component of a path; root, `.` and `..` are kept as they are.
pub fn redact_path(path: &str) -> (res: String)
    ensures
        res@ == redacted_path(path@),
{
    let cs = components_of(path);
    let ghost cv = path_components(path@);
    let ghost f = |buf: Seq<char>, c: (u8, Seq<char>)| push_path(buf, redacted_component(c));
    let mut buf: Vec<char> = Vec::new();
    let mut i: usize = 0;
    proof {
        assert(cv.take(0) =~= Seq::<(u8, Seq<char>)>::empty());
    }
    while i < cs.len()
        invariant
            i <= cs.len(),
            component_views(cs@) == cv,
            f == (|buf: Seq<char>, c: (u8, Seq<char>)| push_path(buf, redacted_component(c))),
            buf@ == cv.take(i as int).fold_left(seq![], f),
        decreases cs.len() - i,
    {
        let c = &cs[i];
        assert(cv[i as int] == (c.kind, c.text@));
        let piece: Vec<char> = if c.kind == COMPONENT_ROOT_DIR {
            let v: Vec<char> = vec!['/'];
            assert(v@ =~= seq!['/']);
            v
        } else if c.kind == COMPONENT_CUR_DIR {
            let v: Vec<char> = vec!['.'];
            assert(v@ =~= seq!['.']);
            v
        } else if c.kind == COMPONENT_PARENT_DIR {
            let v: Vec<char> = vec!['.', '.'];
            assert(v@ =~= seq!['.', '.']);
            v
        } else if c.kind == COMPONENT_NORMAL {
            let r = redact(c.text.as_str());
            chars_of(r.as_str())
        } else {
            chars_of(c.text.as_str())
        };
        assert(piece@ == redacted_component(cv[i as int]));
        push_path_vec(&mut buf, &piece);
        proof {
            assert(cv.take(i + 1).drop_last() =~= cv.take(i as int));
            assert(cv.take(i + 1).last() == cv[i as int]);
        }
        i = i + 1;
    }
    proof {
        assert(cv.take(cs.len() as int) =~= cv);
    }
    string_from_chars(&buf)
}

} // verus!
