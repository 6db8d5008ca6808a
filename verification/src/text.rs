//! Character-sequence model of the text operations the library relies on.
//!
//! Strings are handled as sequences of Unicode scalar values (`Seq<char>`), the view that
//! vstd gives `str` and `String`. The functions here restate the few std text operations
//! whose behaviour is short enough to write down (trimming, ASCII case mapping, splitting,
//! joining, searching) and implement them over `Vec<char>`.

use vstd::prelude::*;

verus! {

// ---------------------------------------------------------------------------------------
// Conversions between `str`/`String` and character vectors
// ---------------------------------------------------------------------------------------

/// The characters of a string slice, in order.
pub fn chars_of(s: &str) -> (res: Vec<char>)
    ensures
        res@ == s@,
{
    let mut res: Vec<char> = Vec::new();
    for c in it: s.chars()
        invariant
            res@ == it.seq().take(it.index() as int),
            it.seq() == s@,
    {
        res.push(c);
    }
    res
}

/// Builds a `String` from characters (`std`'s `FromIterator<&char>` for `String`).
///
/// Trusted: collecting characters into a `String` yields exactly those characters in order.
#[verifier::external_body]
pub fn string_from_chars(chars: &[char]) -> (res: String)
    ensures
        res@ == chars@,
{
    chars.iter().collect()
}

// ---------------------------------------------------------------------------------------
// Character classes
// ---------------------------------------------------------------------------------------

/// Unicode `White_Space`, the property `char::is_whitespace` tests.
pub open spec fn is_ws(c: char) -> bool {
    let u = c as u32;
    (0x09 <= u && u <= 0x0d) || u == 0x20 || u == 0x85 || u == 0xa0 || u == 0x1680 || (0x2000
        <= u && u <= 0x200a) || u == 0x2028 || u == 0x2029 || u == 0x202f || u == 0x205f || u
        == 0x3000
}

pub fn is_whitespace(c: char) -> (res: bool)
    ensures
        res == is_ws(c),
{
    let u = c as u32;
    (0x09 <= u && u <= 0x0d) || u == 0x20 || u == 0x85 || u == 0xa0 || u == 0x1680 || (0x2000
        <= u && u <= 0x200a) || u == 0x2028 || u == 0x2029 || u == 0x202f || u == 0x205f || u
        == 0x3000
}

pub open spec fn is_ascii_upper(c: char) -> bool {
    'A' <= c && c <= 'Z'
}

pub open spec fn is_ascii_lower(c: char) -> bool {
    'a' <= c && c <= 'z'
}

pub open spec fn is_ascii_digit(c: char) -> bool {
    '0' <= c && c <= '9'
}

/// `char::is_ascii_alphanumeric`.
pub open spec fn is_ascii_alnum(c: char) -> bool {
    is_ascii_upper(c) || is_ascii_lower(c) || is_ascii_digit(c)
}

pub fn is_ascii_alphanumeric(c: char) -> (res: bool)
    ensures
        res == is_ascii_alnum(c),
{
    ('A' <= c && c <= 'Z') || ('a' <= c && c <= 'z') || ('0' <= c && c <= '9')
}

/// `char::to_ascii_lowercase`.
pub open spec fn lower_char(c: char) -> char {
    if is_ascii_upper(c) {
        ((c as u32) + 32) as char
    } else {
        c
    }
}

/// `char::to_ascii_uppercase`.
pub open spec fn upper_char(c: char) -> char {
    if is_ascii_lower(c) {
        ((c as u32) - 32) as char
    } else {
        c
    }
}

pub fn to_lower_char(c: char) -> (res: char)
    ensures
        res == lower_char(c),
{
    if 'A' <= c && c <= 'Z' {
        let u = (c as u32) + 32;
        assert(0x61 <= u && u <= 0x7a);
        char_from_ascii(u)
    } else {
        c
    }
}

pub fn to_upper_char(c: char) -> (res: char)
    ensures
        res == upper_char(c),
{
    if 'a' <= c && c <= 'z' {
        let u = (c as u32) - 32;
        char_from_ascii(u)
    } else {
        c
    }
}

/// An ASCII code point as a `char`: every value below 128 is a scalar value of its own.
fn char_from_ascii(u: u32) -> (res: char)
    requires
        u < 128,
    ensures
        res == u as char,
        res as u32 == u,
{
    let b: u8 = u as u8;
    b as char
}

/// `str::to_ascii_lowercase`.
pub open spec fn ascii_lower(s: Seq<char>) -> Seq<char> {
    s.map_values(|c: char| lower_char(c))
}

/// `str::to_ascii_uppercase`.
pub open spec fn ascii_upper(s: Seq<char>) -> Seq<char> {
    s.map_values(|c: char| upper_char(c))
}

pub fn to_ascii_lower(s: &[char]) -> (res: Vec<char>)
    ensures
        res@ == ascii_lower(s@),
{
    let mut res: Vec<char> = Vec::new();
    let mut i: usize = 0;
    while i < s.len()
        invariant
            i <= s.len(),
            res@ == ascii_lower(s@.take(i as int)),
        decreases s.len() - i,
    {
        let c = to_lower_char(s[i]);
        res.push(c);
        i = i + 1;
        assert(ascii_lower(s@.take(i as int)) =~= ascii_lower(s@.take(i - 1 as int)).push(
            lower_char(s@[i - 1]),
        ));
    }
    assert(s@.take(s.len() as int) =~= s@);
    res
}

pub fn to_ascii_upper(s: &[char]) -> (res: Vec<char>)
    ensures
        res@ == ascii_upper(s@),
{
    let mut res: Vec<char> = Vec::new();
    let mut i: usize = 0;
    while i < s.len()
        invariant
            i <= s.len(),
            res@ == ascii_upper(s@.take(i as int)),
        decreases s.len() - i,
    {
        let c = to_upper_char(s[i]);
        res.push(c);
        i = i + 1;
        assert(ascii_upper(s@.take(i as int)) =~= ascii_upper(s@.take(i - 1 as int)).push(
            upper_char(s@[i - 1]),
        ));
    }
    assert(s@.take(s.len() as int) =~= s@);
    res
}

/// `str::eq_ignore_ascii_case`.
pub open spec fn eq_ignore_case(a: Seq<char>, b: Seq<char>) -> bool {
    ascii_lower(a) == ascii_lower(b)
}

pub fn chars_eq(a: &[char], b: &[char]) -> (res: bool)
    ensures
        res == (a@ == b@),
{
    if a.len() != b.len() {
        return false;
    }
    let mut i: usize = 0;
    while i < a.len()
        invariant
            a.len() == b.len(),
            i <= a.len(),
            forall|k: int| 0 <= k < i ==> a@[k] == b@[k],
        decreases a.len() - i,
    {
        if a[i] != b[i] {
            return false;
        }
        i = i + 1;
    }
    assert(a@ =~= b@);
    true
}

pub fn eq_ignore_ascii_case(a: &[char], b: &[char]) -> (res: bool)
    ensures
        res == eq_ignore_case(a@, b@),
{
    let la = to_ascii_lower(a);
    let lb = to_ascii_lower(b);
    chars_eq(&la, &lb)
}

// ---------------------------------------------------------------------------------------
// Trimming
// ---------------------------------------------------------------------------------------

pub open spec fn trim_start(s: Seq<char>) -> Seq<char>
    decreases s.len(),
{
    if s.len() > 0 && is_ws(s[0]) {
        trim_start(s.drop_first())
    } else {
        s
    }
}

pub open spec fn trim_end(s: Seq<char>) -> Seq<char>
    decreases s.len(),
{
    if s.len() > 0 && is_ws(s.last()) {
        trim_end(s.drop_last())
    } else {
        s
    }
}

/// `str::trim`: both ends stripped of Unicode whitespace.
pub open spec fn trim(s: Seq<char>) -> Seq<char> {
    trim_end(trim_start(s))
}

/// Every character is whitespace (what `s.trim().is_empty()` tests).
pub open spec fn all_ws(s: Seq<char>) -> bool {
    forall|i: int| 0 <= i < s.len() ==> is_ws(#[trigger] s[i])
}

pub proof fn lemma_trim_start_skip(s: Seq<char>, i: int)
    requires
        0 <= i <= s.len(),
        forall|k: int| 0 <= k < i ==> is_ws(#[trigger] s[k]),
    ensures
        trim_start(s) == trim_start(s.skip(i)),
    decreases i,
{
    if i > 0 {
        lemma_trim_start_skip(s, i - 1);
        assert(s.skip(i - 1).drop_first() =~= s.skip(i));
    } else {
        assert(s.skip(0) =~= s);
    }
}

pub proof fn lemma_trim_end_take(s: Seq<char>, j: int)
    requires
        0 <= j <= s.len(),
        forall|k: int| j <= k < s.len() ==> is_ws(#[trigger] s[k]),
    ensures
        trim_end(s) == trim_end(s.take(j)),
    decreases s.len() - j,
{
    if j < s.len() {
        lemma_trim_end_take(s, j + 1);
        assert(s.take(j + 1).drop_last() =~= s.take(j));
    } else {
        assert(s.take(j) =~= s);
    }
}

/// Trimming leaves an empty sequence exactly when every character is whitespace.
pub proof fn lemma_trim_empty(s: Seq<char>)
    ensures
        (trim(s).len() == 0) == all_ws(s),
    decreases s.len(),
{
    if s.len() > 0 && is_ws(s[0]) {
        lemma_trim_empty(s.drop_first());
        if all_ws(s.drop_first()) {
            assert forall|i: int| 0 <= i < s.len() implies is_ws(#[trigger] s[i]) by {
                if i > 0 {
                    assert(s[i] == s.drop_first()[i - 1]);
                }
            }
        } else {
            let k = choose|k: int| 0 <= k < s.drop_first().len() && !is_ws(s.drop_first()[k]);
            assert(s[k + 1] == s.drop_first()[k]);
        }
    } else if s.len() > 0 {
        lemma_trim_end_nonempty(s);
    }
}

proof fn lemma_trim_end_nonempty(s: Seq<char>)
    requires
        s.len() > 0,
        !is_ws(s[0]),
    ensures
        trim_end(s).len() > 0,
    decreases s.len(),
{
    if is_ws(s.last()) {
        lemma_trim_end_nonempty(s.drop_last());
    }
}

/// Start and end of the trimmed part: `trim(s) == s.subrange(start, end)`.
pub fn trim_bounds(s: &[char]) -> (res: (usize, usize))
    ensures
        res.0 <= res.1 <= s.len(),
        trim(s@) == s@.subrange(res.0 as int, res.1 as int),
{
    let mut i: usize = 0;
    while i < s.len() && is_whitespace(s[i])
        invariant
            i <= s.len(),
            forall|k: int| 0 <= k < i ==> is_ws(#[trigger] s@[k]),
        decreases s.len() - i,
    {
        i = i + 1;
    }
    proof {
        lemma_trim_start_skip(s@, i as int);
        if i < s.len() {
            assert(trim_start(s@.skip(i as int)) == s@.skip(i as int));
        } else {
            assert(s@.skip(i as int).len() == 0);
        }
    }
    let mut j: usize = s.len();
    while j > i && is_whitespace(s[j - 1])
        invariant
            i <= j <= s.len(),
            forall|k: int| j <= k < s.len() ==> is_ws(#[trigger] s@[k]),
        decreases j,
    {
        j = j - 1;
    }
    proof {
        let t = s@.skip(i as int);
        assert forall|k: int| j - i <= k < t.len() implies is_ws(#[trigger] t[k]) by {
            assert(t[k] == s@[k + i]);
        }
        lemma_trim_end_take(t, j - i);
        assert(t.take(j - i) =~= s@.subrange(i as int, j as int));
        let u = s@.subrange(i as int, j as int);
        if j > i {
            assert(u.last() == s@[j - 1]);
        }
    }
    (i, j)
}

pub fn trim_chars(s: &[char]) -> (res: Vec<char>)
    ensures
        res@ == trim(s@),
{
    let (a, b) = trim_bounds(s);
    slice_vec(s, a, b)
}

/// Whether the characters equal those of a literal.
pub fn eq_lit(v: &[char], lit: &str) -> (res: bool)
    ensures
        res == (v@ == lit@),
{
    let l = chars_of(lit);
    chars_eq(v, &l)
}

/// The trimmed, ASCII-lowercased characters of a string: the key a keyword match compares.
pub open spec fn keyword_key(s: Seq<char>) -> Seq<char> {
    ascii_lower(trim(s))
}

pub fn keyword_key_of(s: &str) -> (res: Vec<char>)
    ensures
        res@ == keyword_key(s@),
{
    let c = chars_of(s);
    let t = trim_chars(&c);
    to_ascii_lower(&t)
}

/// Copy of `s[from..to]`.
pub fn slice_vec(s: &[char], from: usize, to: usize) -> (res: Vec<char>)
    requires
        from <= to <= s.len(),
    ensures
        res@ == s@.subrange(from as int, to as int),
{
    let mut res: Vec<char> = Vec::new();
    let mut i: usize = from;
    while i < to
        invariant
            from <= i <= to <= s.len(),
            res@ == s@.subrange(from as int, i as int),
        decreases to - i,
    {
        res.push(s[i]);
        i = i + 1;
        assert(res@ =~= s@.subrange(from as int, i as int));
    }
    res
}

pub fn all_whitespace(s: &[char]) -> (res: bool)
    ensures
        res == all_ws(s@),
{
    let mut i: usize = 0;
    while i < s.len()
        invariant
            i <= s.len(),
            forall|k: int| 0 <= k < i ==> is_ws(#[trigger] s@[k]),
        decreases s.len() - i,
    {
        if !is_whitespace(s[i]) {
            return false;
        }
        i = i + 1;
    }
    true
}

// ---------------------------------------------------------------------------------------
// Searching
// ---------------------------------------------------------------------------------------

/// `needle` occurs in `hay` starting at position `i`.
pub open spec fn occurs_at(hay: Seq<char>, needle: Seq<char>, i: int) -> bool {
    0 <= i && i + needle.len() <= hay.len() && hay.subrange(i, i + needle.len()) == needle
}

/// `str::contains` with a string pattern.
pub open spec fn contains_seq(hay: Seq<char>, needle: Seq<char>) -> bool {
    exists|i: int| occurs_at(hay, needle, i)
}

/// `str::starts_with`.
pub open spec fn starts_with(s: Seq<char>, prefix: Seq<char>) -> bool {
    prefix.len() <= s.len() && s.take(prefix.len() as int) == prefix
}

/// `str::ends_with`.
pub open spec fn ends_with(s: Seq<char>, suffix: Seq<char>) -> bool {
    suffix.len() <= s.len() && s.skip(s.len() - suffix.len()) == suffix
}

pub fn matches_at(hay: &[char], needle: &[char], i: usize) -> (res: bool)
    ensures
        res == occurs_at(hay@, needle@, i as int),
{
    if i > hay.len() || needle.len() > hay.len() - i {
        return false;
    }
    let mut k: usize = 0;
    while k < needle.len()
        invariant
            i + needle.len() <= hay.len(),
            k <= needle.len(),
            forall|m: int| 0 <= m < k ==> hay@[i + m] == needle@[m],
        decreases needle.len() - k,
    {
        if hay[i + k] != needle[k] {
            assert(hay@.subrange(i as int, i + needle.len())[k as int] != needle@[k as int]);
            return false;
        }
        k = k + 1;
    }
    assert(hay@.subrange(i as int, i + needle.len()) =~= needle@);
    true
}

pub fn contains_chars(hay: &[char], needle: &[char]) -> (res: bool)
    ensures
        res == contains_seq(hay@, needle@),
{
    if needle.len() > hay.len() {
        return false;
    }
    if needle.len() == 0 {
        assert(hay@.subrange(0, 0) =~= needle@);
        assert(occurs_at(hay@, needle@, 0));
        return true;
    }
    let last = hay.len() - needle.len();
    let mut i: usize = 0;
    while i <= last
        invariant
            needle.len() >= 1,
            last == hay.len() - needle.len(),
            i <= last + 1,
            forall|k: int| 0 <= k < i ==> !occurs_at(hay@, needle@, k),
        decreases last + 1 - i,
    {
        if matches_at(hay, needle, i) {
            return true;
        }
        i = i + 1;
    }
    false
}

pub fn starts_with_chars(s: &[char], prefix: &[char]) -> (res: bool)
    ensures
        res == starts_with(s@, prefix@),
{
    let r = matches_at(s, prefix, 0);
    proof {
        if prefix@.len() <= s@.len() {
            assert(s@.subrange(0, prefix@.len() as int) =~= s@.take(prefix@.len() as int));
        }
    }
    r
}

pub fn ends_with_chars(s: &[char], suffix: &[char]) -> (res: bool)
    ensures
        res == ends_with(s@, suffix@),
{
    if suffix.len() > s.len() {
        return false;
    }
    let r = matches_at(s, suffix, s.len() - suffix.len());
    proof {
        assert(s@.subrange(s@.len() - suffix@.len(), s@.len() as int) =~= s@.skip(
            s@.len() - suffix@.len(),
        ));
    }
    r
}

// ---------------------------------------------------------------------------------------
// Splitting and joining
// ---------------------------------------------------------------------------------------

/// The character sequences held by a vector of character vectors.
pub open spec fn vviews(v: Seq<Vec<char>>) -> Seq<Seq<char>> {
    v.map_values(|x: Vec<char>| x@)
}

/// `str::split(sep)` on a single character, with `cur` the part collected so far.
pub open spec fn split_acc(s: Seq<char>, sep: char, cur: Seq<char>) -> Seq<Seq<char>>
    decreases s.len(),
{
    if s.len() == 0 {
        seq![cur]
    } else if s[0] == sep {
        seq![cur] + split_acc(s.drop_first(), sep, seq![])
    } else {
        split_acc(s.drop_first(), sep, cur.push(s[0]))
    }
}

/// `str::split(sep)`: always at least one part.
pub open spec fn split_on(s: Seq<char>, sep: char) -> Seq<Seq<char>> {
    split_acc(s, sep, seq![])
}

/// `str::split_whitespace`, with `cur` the word collected so far.
pub open spec fn words_acc(s: Seq<char>, cur: Seq<char>) -> Seq<Seq<char>>
    decreases s.len(),
{
    if s.len() == 0 {
        if cur.len() > 0 {
            seq![cur]
        } else {
            seq![]
        }
    } else if is_ws(s[0]) {
        (if cur.len() > 0 {
            seq![cur]
        } else {
            seq![]
        }) + words_acc(s.drop_first(), seq![])
    } else {
        words_acc(s.drop_first(), cur.push(s[0]))
    }
}

/// `str::split_whitespace`: the maximal runs of non-whitespace characters.
pub open spec fn words(s: Seq<char>) -> Seq<Seq<char>> {
    words_acc(s, seq![])
}

/// A line ending in `\r\n` loses the `\r` too.
pub open spec fn strip_cr(line: Seq<char>) -> Seq<char> {
    if line.len() > 0 && line.last() == '\r' {
        line.drop_last()
    } else {
        line
    }
}

/// `str::lines`, with `cur` the line collected so far.
pub open spec fn lines_acc(s: Seq<char>, cur: Seq<char>) -> Seq<Seq<char>>
    decreases s.len(),
{
    if s.len() == 0 {
        if cur.len() > 0 {
            seq![cur]
        } else {
            seq![]
        }
    } else if s[0] == '\n' {
        seq![strip_cr(cur)] + lines_acc(s.drop_first(), seq![])
    } else {
        lines_acc(s.drop_first(), cur.push(s[0]))
    }
}

/// `str::lines`: split at `\n`, a `\r` before the `\n` removed, no empty last line.
pub open spec fn lines(s: Seq<char>) -> Seq<Seq<char>> {
    lines_acc(s, seq![])
}

/// `[..].join(sep)`.
pub open spec fn join(parts: Seq<Seq<char>>, sep: Seq<char>) -> Seq<char>
    decreases parts.len(),
{
    if parts.len() == 0 {
        seq![]
    } else if parts.len() == 1 {
        parts[0]
    } else {
        join(parts.drop_last(), sep) + sep + parts.last()
    }
}

pub proof fn lemma_skip_first(s: Seq<char>, i: int)
    requires
        0 <= i < s.len(),
    ensures
        s.skip(i)[0] == s[i],
        s.skip(i).drop_first() == s.skip(i + 1),
        s.skip(i).len() > 0,
{
    assert(s.skip(i).drop_first() =~= s.skip(i + 1));
}

pub fn split_chars(s: &[char], sep: char) -> (res: Vec<Vec<char>>)
    ensures
        vviews(res@) == split_on(s@, sep),
{
    let mut res: Vec<Vec<char>> = Vec::new();
    let mut cur: Vec<char> = Vec::new();
    let mut i: usize = 0;
    proof {
        assert(s@.skip(0) =~= s@);
        assert(vviews(res@) + split_acc(s@, sep, cur@) =~= split_acc(s@, sep, cur@));
    }
    while i < s.len()
        invariant
            i <= s.len(),
            vviews(res@) + split_acc(s@.skip(i as int), sep, cur@) == split_on(s@, sep),
        decreases s.len() - i,
    {
        proof {
            lemma_skip_first(s@, i as int);
        }
        if s[i] == sep {
            let ghost old_res = vviews(res@);
            let ghost old_cur = cur@;
            res.push(cur);
            cur = Vec::new();
            proof {
                assert(vviews(res@) =~= old_res + seq![old_cur]);
                assert(old_res + seq![old_cur] + split_acc(s@.skip(i + 1), sep, seq![]) =~= old_res
                    + (seq![old_cur] + split_acc(s@.skip(i + 1), sep, seq![])));
            }
        } else {
            cur.push(s[i]);
        }
        i = i + 1;
    }
    let ghost before = vviews(res@);
    res.push(cur);
    proof {
        assert(s@.skip(i as int).len() == 0);
        assert(vviews(res@) =~= before + split_acc(s@.skip(i as int), sep, cur@));
    }
    res
}

pub fn split_whitespace(s: &[char]) -> (res: Vec<Vec<char>>)
    ensures
        vviews(res@) == words(s@),
{
    let mut res: Vec<Vec<char>> = Vec::new();
    let mut cur: Vec<char> = Vec::new();
    let mut i: usize = 0;
    proof {
        assert(s@.skip(0) =~= s@);
        assert(vviews(res@) + words_acc(s@, cur@) =~= words_acc(s@, cur@));
    }
    while i < s.len()
        invariant
            i <= s.len(),
            vviews(res@) + words_acc(s@.skip(i as int), cur@) == words(s@),
        decreases s.len() - i,
    {
        proof {
            lemma_skip_first(s@, i as int);
        }
        if is_whitespace(s[i]) {
            if cur.len() > 0 {
                let ghost old_res = vviews(res@);
                let ghost old_cur = cur@;
                res.push(cur);
                cur = Vec::new();
                proof {
                    assert(vviews(res@) =~= old_res + seq![old_cur]);
                    assert(old_res + seq![old_cur] + words_acc(s@.skip(i + 1), seq![])
                        =~= old_res + (seq![old_cur] + words_acc(s@.skip(i + 1), seq![])));
                }
            } else {
                proof {
                    assert(seq![] + words_acc(s@.skip(i + 1), seq![]) =~= words_acc(
                        s@.skip(i + 1),
                        seq![],
                    ));
                    assert(cur@ =~= seq![]);
                }
            }
        } else {
            cur.push(s[i]);
        }
        i = i + 1;
    }
    proof {
        assert(s@.skip(i as int).len() == 0);
    }
    if cur.len() > 0 {
        let ghost before = vviews(res@);
        res.push(cur);
        proof {
            assert(vviews(res@) =~= before + words_acc(s@.skip(i as int), cur@));
        }
    } else {
        proof {
            assert(vviews(res@) =~= vviews(res@) + words_acc(s@.skip(i as int), cur@));
        }
    }
    res
}

fn strip_cr_vec(line: Vec<char>) -> (res: Vec<char>)
    ensures
        res@ == strip_cr(line@),
{
    let mut line = line;
    if line.len() > 0 && line[line.len() - 1] == '\r' {
        line.pop();
    }
    line
}

pub fn split_lines(s: &[char]) -> (res: Vec<Vec<char>>)
    ensures
        vviews(res@) == lines(s@),
{
    let mut res: Vec<Vec<char>> = Vec::new();
    let mut cur: Vec<char> = Vec::new();
    let mut i: usize = 0;
    proof {
        assert(s@.skip(0) =~= s@);
        assert(vviews(res@) + lines_acc(s@, cur@) =~= lines_acc(s@, cur@));
    }
    while i < s.len()
        invariant
            i <= s.len(),
            vviews(res@) + lines_acc(s@.skip(i as int), cur@) == lines(s@),
        decreases s.len() - i,
    {
        proof {
            lemma_skip_first(s@, i as int);
        }
        if s[i] == '\n' {
            let ghost old_res = vviews(res@);
            let ghost old_cur = cur@;
            let line = strip_cr_vec(cur);
            res.push(line);
            cur = Vec::new();
            proof {
                assert(vviews(res@) =~= old_res + seq![strip_cr(old_cur)]);
                assert(old_res + seq![strip_cr(old_cur)] + lines_acc(s@.skip(i + 1), seq![])
                    =~= old_res + (seq![strip_cr(old_cur)] + lines_acc(s@.skip(i + 1), seq![])));
            }
        } else {
            cur.push(s[i]);
        }
        i = i + 1;
    }
    proof {
        assert(s@.skip(i as int).len() == 0);
    }
    if cur.len() > 0 {
        let ghost before = vviews(res@);
        res.push(cur);
        proof {
            assert(vviews(res@) =~= before + lines_acc(s@.skip(i as int), cur@));
        }
    } else {
        proof {
            assert(vviews(res@) =~= vviews(res@) + lines_acc(s@.skip(i as int), cur@));
        }
    }
    res
}

pub fn append_chars(dst: &mut Vec<char>, src: &[char])
    ensures
        final(dst)@ == old(dst)@ + src@,
{
    let mut i: usize = 0;
    while i < src.len()
        invariant
            i <= src.len(),
            dst@ == old(dst)@ + src@.take(i as int),
        decreases src.len() - i,
    {
        dst.push(src[i]);
        i = i + 1;
        assert(dst@ =~= old(dst)@ + src@.take(i as int));
    }
    assert(src@.take(src.len() as int) =~= src@);
}

pub fn join_chars(parts: &Vec<Vec<char>>, sep: &[char]) -> (res: Vec<char>)
    ensures
        res@ == join(vviews(parts@), sep@),
{
    let mut res: Vec<char> = Vec::new();
    let mut i: usize = 0;
    while i < parts.len()
        invariant
            i <= parts.len(),
            res@ == join(vviews(parts@).take(i as int), sep@),
        decreases parts.len() - i,
    {
        let ghost before = res@;
        if i > 0 {
            append_chars(&mut res, sep);
        }
        append_chars(&mut res, &parts[i]);
        i = i + 1;
        proof {
            let t = vviews(parts@).take(i as int);
            assert(t.drop_last() =~= vviews(parts@).take(i - 1));
            assert(t.last() == parts[i - 1]@);
            if i == 1 {
                assert(join(vviews(parts@).take(0), sep@) =~= seq![]);
                assert(res@ =~= t[0]);
            }
        }
    }
    assert(vviews(parts@).take(parts.len() as int) =~= vviews(parts@));
    res
}

// ---------------------------------------------------------------------------------------
// Facts about words
// ---------------------------------------------------------------------------------------

/// A word: non-empty, without whitespace.
pub open spec fn is_word(w: Seq<char>) -> bool {
    w.len() > 0 && forall|i: int| 0 <= i < w.len() ==> !is_ws(#[trigger] w[i])
}

/// The words of each part, one after the other.
pub open spec fn concat_words(parts: Seq<Seq<char>>) -> Seq<Seq<char>>
    decreases parts.len(),
{
    if parts.len() == 0 {
        seq![]
    } else {
        concat_words(parts.drop_last()) + words(parts.last())
    }
}

proof fn lemma_words_acc_split(a: Seq<char>, c: char, b: Seq<char>, cur: Seq<char>)
    requires
        is_ws(c),
    ensures
        words_acc(a + seq![c] + b, cur) == words_acc(a, cur) + words(b),
    decreases a.len(),
{
    let s = a + seq![c] + b;
    if a.len() == 0 {
        assert(s =~= seq![c] + b);
        assert(s.drop_first() =~= b);
    } else {
        assert(s[0] == a[0]);
        assert(s.drop_first() =~= a.drop_first() + seq![c] + b);
        if is_ws(a[0]) {
            lemma_words_acc_split(a.drop_first(), c, b, seq![]);
            let e: Seq<Seq<char>> = if cur.len() > 0 {
                seq![cur]
            } else {
                seq![]
            };
            assert(e + (words_acc(a.drop_first(), seq![]) + words(b)) =~= (e + words_acc(
                a.drop_first(),
                seq![],
            )) + words(b));
        } else {
            lemma_words_acc_split(a.drop_first(), c, b, cur.push(a[0]));
        }
    }
}

/// Whitespace between two texts separates their words.
pub proof fn lemma_words_split(a: Seq<char>, c: char, b: Seq<char>)
    requires
        is_ws(c),
    ensures
        words(a + seq![c] + b) == words(a) + words(b),
{
    lemma_words_acc_split(a, c, b, seq![]);
}

proof fn lemma_words_acc_single(w: Seq<char>, cur: Seq<char>)
    requires
        forall|i: int| 0 <= i < w.len() ==> !is_ws(#[trigger] w[i]),
        cur.len() + w.len() > 0,
    ensures
        words_acc(w, cur) == seq![cur + w],
    decreases w.len(),
{
    if w.len() == 0 {
        assert(cur + w =~= cur);
    } else {
        assert(!is_ws(w[0]));
        assert forall|i: int| 0 <= i < w.drop_first().len() implies !is_ws(
            #[trigger] w.drop_first()[i],
        ) by {
            assert(w.drop_first()[i] == w[i + 1]);
        }
        lemma_words_acc_single(w.drop_first(), cur.push(w[0]));
        assert(cur.push(w[0]) + w.drop_first() =~= cur + w);
    }
}

/// A single word is its own only word.
pub proof fn lemma_words_single(w: Seq<char>)
    requires
        is_word(w),
    ensures
        words(w) == seq![w],
{
    lemma_words_acc_single(w, seq![]);
    assert(seq![] + w =~= w);
}

/// The words of parts joined by one whitespace character are the words of the parts.
pub proof fn lemma_words_join(parts: Seq<Seq<char>>, c: char)
    requires
        is_ws(c),
    ensures
        words(join(parts, seq![c])) == concat_words(parts),
    decreases parts.len(),
{
    if parts.len() == 0 {
        assert(words(seq![]) == Seq::<Seq<char>>::empty());
    } else if parts.len() == 1 {
        assert(parts.drop_last().len() == 0);
        assert(concat_words(parts.drop_last()) =~= seq![]);
        assert(concat_words(parts) =~= words(parts[0]));
    } else {
        lemma_words_join(parts.drop_last(), c);
        lemma_words_split(join(parts.drop_last(), seq![c]), c, parts.last());
        assert(join(parts.drop_last(), seq![c]) + seq![c] + parts.last() == join(parts, seq![c]));
    }
}

/// When every part consists of words, its words are the parts themselves.
pub proof fn lemma_concat_words_of_words(parts: Seq<Seq<char>>)
    requires
        forall|i: int| 0 <= i < parts.len() ==> is_word(#[trigger] parts[i]),
    ensures
        concat_words(parts) == parts,
    decreases parts.len(),
{
    if parts.len() > 0 {
        lemma_concat_words_of_words(parts.drop_last());
        lemma_words_single(parts.last());
        assert(parts.drop_last() + seq![parts.last()] =~= parts);
    }
}

/// Every element of `concat_words(parts)` is a word of some part.
pub proof fn lemma_concat_words_member(parts: Seq<Seq<char>>, j: int)
    requires
        0 <= j < concat_words(parts).len(),
    ensures
        exists|k: int, m: int|
            0 <= k < parts.len() && 0 <= m < words(parts[k]).len() && concat_words(parts)[j]
                == #[trigger] words(parts[k])[m],
    decreases parts.len(),
{
    if parts.len() > 0 {
        let front = concat_words(parts.drop_last());
        if j < front.len() {
            lemma_concat_words_member(parts.drop_last(), j);
            let (k, m) = choose|k: int, m: int|
                0 <= k < parts.drop_last().len() && 0 <= m < words(parts.drop_last()[k]).len()
                    && front[j] == #[trigger] words(parts.drop_last()[k])[m];
            assert(parts.drop_last()[k] == parts[k]);
            assert(concat_words(parts)[j] == words(parts[k])[m]);
        } else {
            let k = parts.len() - 1;
            let m = j - front.len();
            assert(concat_words(parts)[j] == words(parts[k])[m]);
        }
    }
}

proof fn lemma_words_acc_are_words(s: Seq<char>, cur: Seq<char>)
    requires
        forall|i: int| 0 <= i < cur.len() ==> !is_ws(#[trigger] cur[i]),
    ensures
        forall|j: int| 0 <= j < words_acc(s, cur).len() ==> is_word(#[trigger] words_acc(s, cur)[j]),
    decreases s.len(),
{
    let e: Seq<Seq<char>> = if cur.len() > 0 {
        seq![cur]
    } else {
        seq![]
    };
    assert(forall|j: int| 0 <= j < e.len() ==> is_word(#[trigger] e[j]));
    if s.len() == 0 {
        assert(words_acc(s, cur) == e);
        assert forall|j: int| 0 <= j < words_acc(s, cur).len() implies is_word(
            #[trigger] words_acc(s, cur)[j],
        ) by {
            assert(words_acc(s, cur)[j] == e[j]);
        }
    } else if is_ws(s[0]) {
        lemma_words_acc_are_words(s.drop_first(), seq![]);
        let rest = words_acc(s.drop_first(), seq![]);
        assert(words_acc(s, cur) == e + rest);
        assert forall|j: int| 0 <= j < words_acc(s, cur).len() implies is_word(
            #[trigger] words_acc(s, cur)[j],
        ) by {
            if j < e.len() {
                assert(words_acc(s, cur)[j] == e[j]);
            } else {
                assert(words_acc(s, cur)[j] == rest[j - e.len()]);
            }
        }
    } else {
        let c2 = cur.push(s[0]);
        assert forall|i: int| 0 <= i < c2.len() implies !is_ws(#[trigger] c2[i]) by {
            if i < cur.len() {
                assert(c2[i] == cur[i]);
            }
        }
        lemma_words_acc_are_words(s.drop_first(), c2);
        assert(words_acc(s, cur) == words_acc(s.drop_first(), c2));
        assert forall|j: int| 0 <= j < words_acc(s, cur).len() implies is_word(
            #[trigger] words_acc(s, cur)[j],
        ) by {
            assert(words_acc(s, cur)[j] == words_acc(s.drop_first(), c2)[j]);
        }
    }
}

/// `split_whitespace` yields words.
pub proof fn lemma_words_are_words(s: Seq<char>)
    ensures
        forall|j: int| 0 <= j < words(s).len() ==> is_word(#[trigger] words(s)[j]),
{
    lemma_words_acc_are_words(s, seq![]);
}


/// The concatenation of three texts.
pub fn concat3(a: &str, b: &str, c: &str) -> (res: String)
    ensures
        res@ == a@ + b@ + c@,
{
    let mut v = chars_of(a);
    let bc = chars_of(b);
    let cc = chars_of(c);
    append_chars(&mut v, &bc);
    append_chars(&mut v, &cc);
    string_from_chars(&v)
}

/// Whether a text contains a literal.
pub fn contains_lit(hay: &[char], lit: &str) -> (res: bool)
    ensures
        res == contains_seq(hay@, lit@),
{
    let l = chars_of(lit);
    contains_chars(hay, &l)
}


/// The concatenation of all parts.
pub open spec fn concat_all(parts: Seq<Seq<char>>) -> Seq<char>
    decreases parts.len(),
{
    if parts.len() == 0 {
        seq![]
    } else {
        concat_all(parts.drop_last()) + parts.last()
    }
}

pub proof fn lemma_concat_all_four(a: Seq<char>, b: Seq<char>, c: Seq<char>, d: Seq<char>)
    ensures
        concat_all(seq![a, b, c, d]) == a + b + c + d,
{
    let s0 = Seq::<Seq<char>>::empty();
    let s1 = s0.push(a);
    let s2 = s1.push(b);
    let s3 = s2.push(c);
    let s4 = s3.push(d);
    assert(s1.drop_last() =~= s0);
    assert(s2.drop_last() =~= s1);
    assert(s3.drop_last() =~= s2);
    assert(s4.drop_last() =~= s3);
    assert(concat_all(s0) =~= Seq::<char>::empty());
    assert(concat_all(s1) == concat_all(s0) + a);
    assert(Seq::<char>::empty() + a =~= a);
    assert(concat_all(s1) =~= a);
    assert(concat_all(s2) =~= a + b);
    assert(concat_all(s3) =~= a + b + c);
    assert(concat_all(s4) =~= a + b + c + d);
    assert(seq![a, b, c, d] =~= s4);
}

} // verus!
