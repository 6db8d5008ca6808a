//! What redaction guarantees of its output: no word of a redacted text is a provider key
//! (`sk-...`, `tsk-...`) or a sensitive assignment (`api_key=...`, `password:...`).

use vstd::prelude::*;

use crate::redaction::{
    assign_set, assignment_from, is_assign_char, is_auth_scheme_word, is_bearer_word,
    is_redaction_connector, is_secret_token, is_sensitive_assignment_key, is_sensitive_identifier,
    is_sensitive_key_name, is_sensitive_pair, is_sensitive_part, has_sensitive_pair,
    has_sensitive_part, initial_walk, is_private_key_begin, is_private_key_end, is_separator, key_of, line_step, lit_key, normalize_char,
    normalize_identifier, redact_line, redacted, redacted_lines, redacted_marker, scan_tokens,
    sensitive_assignment, separator_set, token_step, trim_end_set, trim_set, trim_start_set,
    trim_wrappers, walk_lines, wrapper_set, LineScan, WalkState,
};
use crate::text::{
    ascii_lower, concat_words, ends_with, is_word, is_ws, lemma_concat_words_member,
    lemma_concat_words_of_words, lemma_words_are_words, lemma_words_join, lemma_words_single,
    lemma_words_split, lines, lines_acc, lower_char, split_acc, split_on, starts_with, words,
};

verus! {

/// A word that redaction may let through: not a provider key, not a sensitive assignment.
pub open spec fn safe_word(w: Seq<char>) -> bool {
    !is_secret_token(w) && sensitive_assignment(w) is None
}

/// Every word of the text is safe.
pub open spec fn safe_text(t: Seq<char>) -> bool {
    forall|j: int| 0 <= j < words(t).len() ==> safe_word(#[trigger] words(t)[j])
}

// ---------------------------------------------------------------------------------------
// Trimming by a set keeps a contiguous middle part
// ---------------------------------------------------------------------------------------

proof fn lemma_trim_start_set_range(s: Seq<char>, set: Seq<char>) -> (a: int)
    ensures
        0 <= a <= s.len(),
        trim_start_set(s, set) == s.skip(a),
        forall|k: int| 0 <= k < a ==> set.contains(#[trigger] s[k]),
        a < s.len() ==> !set.contains(s[a]),
    decreases s.len(),
{
    if s.len() > 0 && set.contains(s[0]) {
        let a1 = lemma_trim_start_set_range(s.drop_first(), set);
        assert(s.drop_first().skip(a1) =~= s.skip(a1 + 1));
        assert forall|k: int| 0 <= k < a1 + 1 implies set.contains(#[trigger] s[k]) by {
            if k > 0 {
                assert(s[k] == s.drop_first()[k - 1]);
            }
        }
        if a1 + 1 < s.len() {
            assert(s[a1 + 1] == s.drop_first()[a1]);
        }
        a1 + 1
    } else {
        assert(s.skip(0) =~= s);
        0
    }
}

proof fn lemma_trim_end_set_range(s: Seq<char>, set: Seq<char>) -> (b: int)
    ensures
        0 <= b <= s.len(),
        trim_end_set(s, set) == s.take(b),
        forall|k: int| b <= k < s.len() ==> set.contains(#[trigger] s[k]),
        b > 0 ==> !set.contains(s[b - 1]),
    decreases s.len(),
{
    if s.len() > 0 && set.contains(s.last()) {
        let b1 = lemma_trim_end_set_range(s.drop_last(), set);
        assert(s.drop_last().take(b1) =~= s.take(b1));
        assert forall|k: int| b1 <= k < s.len() implies set.contains(#[trigger] s[k]) by {
            if k < s.len() - 1 {
                assert(s[k] == s.drop_last()[k]);
            }
        }
        if b1 > 0 {
            assert(s[b1 - 1] == s.drop_last()[b1 - 1]);
        }
        b1
    } else {
        assert(s.take(s.len() as int) =~= s);
        s.len() as int
    }
}

/// `trim_set(s, set) == s[a..b]`, everything outside `a..b` in the set.
pub proof fn lemma_trim_set_range(s: Seq<char>, set: Seq<char>) -> (r: (int, int))
    ensures
        0 <= r.0 <= r.1 <= s.len(),
        trim_set(s, set) == s.subrange(r.0, r.1),
        forall|k: int| 0 <= k < r.0 ==> set.contains(#[trigger] s[k]),
        forall|k: int| r.1 <= k < s.len() ==> set.contains(#[trigger] s[k]),
{
    let a = lemma_trim_start_set_range(s, set);
    let t = s.skip(a);
    let b = lemma_trim_end_set_range(t, set);
    assert(t.take(b) =~= s.subrange(a, a + b));
    assert forall|k: int| a + b <= k < s.len() implies set.contains(#[trigger] s[k]) by {
        assert(s[k] == t[k - a]);
    }
    (a, a + b)
}

/// Characters of a trimmed text come from the text.
proof fn lemma_trim_set_chars(s: Seq<char>, set: Seq<char>, allowed: Seq<char>)
    requires
        forall|k: int| 0 <= k < s.len() ==> allowed.contains(#[trigger] s[k]),
    ensures
        forall|k: int|
            0 <= k < trim_set(s, set).len() ==> allowed.contains(#[trigger] trim_set(s, set)[k]),
{
    let r = lemma_trim_set_range(s, set);
    assert forall|k: int| 0 <= k < trim_set(s, set).len() implies allowed.contains(
        #[trigger] trim_set(s, set)[k],
    ) by {
        assert(trim_set(s, set)[k] == s[r.0 + k]);
    }
}

/// Trimming a set off `pre + mid + post` leaves `mid` when `pre`, `post` are made of the set
/// and `mid` neither starts nor ends with it.
proof fn lemma_trim_set_exact(pre: Seq<char>, mid: Seq<char>, post: Seq<char>, set: Seq<char>)
    requires
        mid.len() > 0,
        !set.contains(mid[0]),
        !set.contains(mid.last()),
        forall|k: int| 0 <= k < pre.len() ==> set.contains(#[trigger] pre[k]),
        forall|k: int| 0 <= k < post.len() ==> set.contains(#[trigger] post[k]),
    ensures
        trim_set(pre + mid + post, set) == mid,
{
    let s = pre + mid + post;
    let a = lemma_trim_start_set_range(s, set);
    assert(s[pre.len() as int] == mid[0]);
    if a < pre.len() {
        assert(s[a] == pre[a]);
    }
    assert(a == pre.len());
    let t = s.skip(a);
    assert(t =~= mid + post);
    let b = lemma_trim_end_set_range(t, set);
    assert(t[mid.len() - 1] == mid.last());
    if b > mid.len() {
        assert(t[b - 1] == post[b - 1 - mid.len()]);
    }
    assert(b == mid.len());
    assert(t.take(b) =~= mid);
}

// ---------------------------------------------------------------------------------------
// Identifiers that cannot be sensitive
// ---------------------------------------------------------------------------------------

proof fn lemma_split_all_sep(s: Seq<char>, sep: char)
    requires
        forall|k: int| 0 <= k < s.len() ==> #[trigger] s[k] == sep,
    ensures
        forall|i: int|
            0 <= i < split_acc(s, sep, seq![]).len() ==> (#[trigger] split_acc(s, sep, seq![])[i]).len()
                == 0,
    decreases s.len(),
{
    if s.len() > 0 {
        assert(s[0] == sep);
        assert forall|k: int| 0 <= k < s.drop_first().len() implies #[trigger] s.drop_first()[k]
            == sep by {
            assert(s.drop_first()[k] == s[k + 1]);
        }
        lemma_split_all_sep(s.drop_first(), sep);
        let rest = split_acc(s.drop_first(), sep, seq![]);
        assert forall|i: int| 0 <= i < split_acc(s, sep, seq![]).len() implies (
        #[trigger] split_acc(s, sep, seq![])[i]).len() == 0 by {
            if i > 0 {
                assert(split_acc(s, sep, seq![])[i] == rest[i - 1]);
            }
        }
    }
}

proof fn lemma_split_no_sep(s: Seq<char>, sep: char, cur: Seq<char>)
    requires
        forall|k: int| 0 <= k < s.len() ==> #[trigger] s[k] != sep,
    ensures
        split_acc(s, sep, cur) == seq![cur + s],
    decreases s.len(),
{
    if s.len() == 0 {
        assert(cur + s =~= cur);
    } else {
        assert(s[0] != sep);
        assert forall|k: int| 0 <= k < s.drop_first().len() implies #[trigger] s.drop_first()[k]
            != sep by {
            assert(s.drop_first()[k] == s[k + 1]);
        }
        lemma_split_no_sep(s.drop_first(), sep, cur.push(s[0]));
        assert(cur.push(s[0]) + s.drop_first() =~= cur + s);
    }
}

/// A name made only of `_` is not sensitive.
proof fn lemma_underscores_not_sensitive(n: Seq<char>)
    requires
        forall|k: int| 0 <= k < n.len() ==> #[trigger] n[k] == '_',
    ensures
        n != lit_key(),
        !is_sensitive_identifier(n),
{
    if n.len() > 0 {
        assert(n[0] == '_');
    }
    assert(n != lit_key()) by {
        if n == lit_key() {
            assert(n[0] == 'k');
        }
    }
    assert(!is_sensitive_key_name(n)) by {
        if n.len() > 0 {
            assert(n[0] == '_');
        }
    }
    lemma_split_all_sep(n, '_');
    let parts = split_on(n, '_');
    assert(!has_sensitive_part(parts)) by {
        if has_sensitive_part(parts) {
            let i = choose|i: int| 0 <= i < parts.len() && is_sensitive_part(#[trigger] parts[i]);
            assert(parts[i].len() == 0);
        }
    }
    assert(!has_sensitive_pair(parts)) by {
        if has_sensitive_pair(parts) {
            let i = choose|i: int|
                0 <= i && i + 1 < parts.len() && is_sensitive_pair(#[trigger] parts[i], parts[i + 1]);
            assert(parts[i + 1].len() == 0);
        }
    }
    assert(!ends_with(n, seq!['_', 'k', 'e', 'y'])) by {
        if ends_with(n, seq!['_', 'k', 'e', 'y']) {
            assert(n.skip(n.len() - 4)[1] == n[n.len() - 3]);
        }
    }
    assert(!ends_with(n, seq!['_', 't', 'o', 'k', 'e', 'n'])) by {
        if ends_with(n, seq!['_', 't', 'o', 'k', 'e', 'n']) {
            assert(n.skip(n.len() - 6)[1] == n[n.len() - 5]);
        }
    }
}

/// A short lowercase word without `_` is not a sensitive identifier unless it is one of the
/// listed names; `is` and `was` are not.
proof fn lemma_connector_names_not_sensitive(n: Seq<char>)
    requires
        n == seq!['i', 's'] || n == seq!['w', 'a', 's'],
    ensures
        n != lit_key(),
        !is_sensitive_identifier(n),
{
    lemma_split_no_sep(n, '_', seq![]);
    assert(seq![] + n =~= n);
    let parts = split_on(n, '_');
    assert(parts == seq![n]);
    assert(!has_sensitive_part(parts)) by {
        if has_sensitive_part(parts) {
            let i = choose|i: int| 0 <= i < parts.len() && is_sensitive_part(#[trigger] parts[i]);
            assert(parts[i] == n);
        }
    }
    assert(!has_sensitive_pair(parts));
    assert(n != lit_key()) by {
        if n == lit_key() {
            assert(n.len() == 3);
            assert(n[0] == 'w');
        }
    }
    assert(!is_sensitive_key_name(n)) by {
        if n.len() == 3 {
            assert(n[0] == 'w');
        }
    }
}

/// A label made only of separator characters is not a sensitive assignment key.
proof fn lemma_separator_key_not_sensitive(key: Seq<char>)
    requires
        forall|k: int| 0 <= k < key.len() ==> separator_set().contains(#[trigger] key[k]),
    ensures
        !is_sensitive_assignment_key(key),
{
    lemma_trim_set_chars(key, wrapper_set(), separator_set());
    let t = trim_wrappers(key);
    lemma_trim_set_chars(t, assign_set(), separator_set());
    let kk = key_of(key);
    let n = normalize_identifier(kk);
    assert forall|k: int| 0 <= k < n.len() implies #[trigger] n[k] == '_' by {
        assert(separator_set().contains(kk[k]));
        assert(n[k] == normalize_char(kk[k]));
    }
    lemma_underscores_not_sensitive(n);
}

proof fn lemma_assignment_none(t: Seq<char>, j: int)
    requires
        0 <= j,
        forall|m: int|
            j <= m < t.len() && is_assign_char(#[trigger] t[m]) ==> !is_sensitive_assignment_key(
                trim_wrappers(t.take(m)),
            ),
    ensures
        assignment_from(t, j) is None,
    decreases t.len() - j,
{
    if j < t.len() {
        lemma_assignment_none(t, j + 1);
    }
}

// ---------------------------------------------------------------------------------------
// The words redaction lets through
// ---------------------------------------------------------------------------------------

proof fn lemma_marker_is_word()
    ensures
        is_word(redacted_marker()),
{
    let r = redacted_marker();
    assert forall|i: int| 0 <= i < r.len() implies !is_ws(#[trigger] r[i]) by {}
}

proof fn lemma_marker_untrimmed()
    ensures
        trim_wrappers(redacted_marker()) == redacted_marker(),
{
    let r = redacted_marker();
    let e: Seq<char> = seq![];
    assert(e + r + e =~= r);
    assert(r[0] == '<');
    assert(r.last() == '>');
    assert(!wrapper_set().contains('<'));
    assert(!wrapper_set().contains('>'));
    lemma_trim_set_exact(e, r, e, wrapper_set());
}

proof fn lemma_marker_not_key()
    ensures
        !is_secret_token(redacted_marker()),
{
    let r = redacted_marker();
    lemma_marker_untrimmed();
    let lt = ascii_lower(r);
    assert(lt[0] == lower_char(r[0]));
    assert(lt[0] == '<');
    if starts_with(lt, seq!['s', 'k', '-']) {
        assert(lt.take(3)[0] == lt[0]);
    }
    if starts_with(lt, seq!['t', 's', 'k', '-']) {
        assert(lt.take(4)[0] == lt[0]);
    }
}

/// The replacement marker is a safe word.
pub proof fn lemma_marker_safe()
    ensures
        is_word(redacted_marker()),
        safe_word(redacted_marker()),
{
    let r = redacted_marker();
    lemma_marker_is_word();
    lemma_marker_not_key();
    lemma_marker_untrimmed();
    assert forall|m: int| 0 <= m < r.len() && is_assign_char(#[trigger] r[m]) implies false by {}
    lemma_assignment_none(r, 0);
}

/// Separator tokens are safe.
proof fn lemma_separator_safe(tok: Seq<char>)
    requires
        is_separator(tok),
    ensures
        safe_word(tok),
{
    lemma_trim_set_chars(tok, wrapper_set(), separator_set());
    let t = trim_wrappers(tok);
    assert(!is_secret_token(tok)) by {
        if t.len() > 0 {
            assert(separator_set().contains(t[0]));
            assert(ascii_lower(t)[0] == lower_char(t[0]));
        }
        if starts_with(ascii_lower(t), seq!['s', 'k', '-']) {
            assert(ascii_lower(t).take(3)[0] == ascii_lower(t)[0]);
        }
        if starts_with(ascii_lower(t), seq!['t', 's', 'k', '-']) {
            assert(ascii_lower(t).take(4)[0] == ascii_lower(t)[0]);
        }
    }
    assert forall|m: int|
        0 <= m < t.len() && is_assign_char(#[trigger] t[m]) implies !is_sensitive_assignment_key(
        trim_wrappers(t.take(m)),
    ) by {
        let pre = t.take(m);
        assert forall|k: int| 0 <= k < pre.len() implies separator_set().contains(
            #[trigger] pre[k],
        ) by {
            assert(pre[k] == t[k]);
        }
        lemma_trim_set_chars(pre, wrapper_set(), separator_set());
        lemma_separator_key_not_sensitive(trim_wrappers(pre));
    }
    lemma_assignment_none(t, 0);
}

/// Connector tokens (`is`, `was`, separators) are safe.
proof fn lemma_connector_safe(tok: Seq<char>)
    requires
        is_redaction_connector(tok),
    ensures
        safe_word(tok),
{
    if is_separator(tok) {
        lemma_separator_safe(tok);
    } else {
        let t = trim_wrappers(tok);
        let r = lemma_trim_set_range(t, assign_set());
        let k = key_of(tok);
        let lk = ascii_lower(k);
        assert(lk == seq!['i', 's'] || lk == seq!['w', 'a', 's']);
        assert(k.len() == lk.len());
        assert(k.len() >= 2);
        assert forall|i: int| 0 <= i < k.len() implies is_letter(#[trigger] k[i]) by {
            assert(lk[i] == lower_char(k[i]));
        }
        assert(k[0] == t[r.0]);
        assert(k.last() == t[r.1 - 1]);
        // not a provider key: the first character is an assignment character or a letter
        // other than `s` and `t`
        assert(!is_secret_token(tok)) by {
            let lt = ascii_lower(t);
            assert(lt[0] == lower_char(t[0]));
            if r.0 > 0 {
                assert(assign_set().contains(t[0]));
            } else {
                assert(t[0] == k[0]);
                assert(lk[0] == lower_char(k[0]));
            }
            if starts_with(lt, seq!['s', 'k', '-']) {
                assert(lt.take(3)[0] == lt[0]);
            }
            if starts_with(lt, seq!['t', 's', 'k', '-']) {
                assert(lt.take(4)[0] == lt[0]);
            }
        }
        assert forall|m: int|
            0 <= m < t.len() && is_assign_char(#[trigger] t[m]) implies !is_sensitive_assignment_key(
            trim_wrappers(t.take(m)),
        ) by {
            if r.0 <= m < r.1 {
                assert(t[m] == k[m - r.0]);
                assert(is_letter(k[m - r.0]));
            }
            let pre = t.take(m);
            if m < r.0 {
                assert forall|q: int| 0 <= q < pre.len() implies separator_set().contains(
                    #[trigger] pre[q],
                ) by {
                    assert(pre[q] == t[q]);
                    assert(assign_set().contains(t[q]));
                }
                lemma_trim_set_chars(pre, wrapper_set(), separator_set());
                lemma_separator_key_not_sensitive(trim_wrappers(pre));
            } else {
                let a = t.subrange(0, r.0);
                let b = t.subrange(r.1, m);
                assert(pre =~= a + k + b);
                assert forall|q: int| 0 <= q < a.len() implies assign_set().contains(
                    #[trigger] a[q],
                ) by {
                    assert(a[q] == t[q]);
                }
                assert forall|q: int| 0 <= q < b.len() implies assign_set().contains(
                    #[trigger] b[q],
                ) by {
                    assert(b[q] == t[r.1 + q]);
                }
                // the ends of `pre` are assignment characters or letters: no wrappers
                assert(trim_wrappers(pre) == pre) by {
                    assert(pre[0] == t[0]);
                    assert(pre.last() == t[m - 1]);
                    if r.0 == 0 {
                        assert(t[0] == k[0]);
                    }
                    if m == r.1 {
                        assert(t[m - 1] == k.last());
                    }
                    let e: Seq<char> = seq![];
                    assert(e + pre + e =~= pre);
                    assert(!wrapper_set().contains(pre[0]));
                    assert(!wrapper_set().contains(pre.last()));
                    lemma_trim_set_exact(e, pre, e, wrapper_set());
                }
                assert(!assign_set().contains(k[0]));
                assert(!assign_set().contains(k.last()));
                lemma_trim_set_exact(a, k, b, assign_set());
                assert(key_of(pre) == k);
                let n = normalize_identifier(k);
                assert(n =~= lk) by {
                    assert forall|q: int| 0 <= q < n.len() implies n[q] == lk[q] by {
                        assert(is_letter(k[q]));
                    }
                }
                lemma_connector_names_not_sensitive(lk);
            }
        }
        lemma_assignment_none(t, 0);
    }
}

pub open spec fn is_letter(c: char) -> bool {
    ('a' <= c && c <= 'z') || ('A' <= c && c <= 'Z')
}

/// Each word the scan emits is a safe word.
proof fn lemma_scan_safe(toks: Seq<Seq<char>>, i: int, st: LineScan)
    requires
        forall|j: int| 0 <= j < toks.len() ==> is_word(#[trigger] toks[j]),
    ensures
        forall|j: int|
            0 <= j < scan_tokens(toks, i, st).0.len() ==> is_word(
                #[trigger] scan_tokens(toks, i, st).0[j],
            ) && safe_word(scan_tokens(toks, i, st).0[j]),
    decreases toks.len() - i,
{
    if 0 <= i < toks.len() {
        let next = if i + 1 < toks.len() {
            Some(toks[i + 1])
        } else {
            None
        };
        let step = token_step(toks[i], next, st);
        lemma_scan_safe(toks, i + 1, step.1);
        lemma_marker_safe();
        let tok = toks[i];
        assert(is_word(step.0) && safe_word(step.0)) by {
            if step.0 != redacted_marker() {
                assert(step.0 == tok);
                if st.redact_next {
                    lemma_connector_safe(tok);
                }
            }
        }
        let rest = scan_tokens(toks, i + 1, step.1).0;
        assert forall|j: int|
            0 <= j < scan_tokens(toks, i, st).0.len() implies is_word(
            #[trigger] scan_tokens(toks, i, st).0[j],
        ) && safe_word(scan_tokens(toks, i, st).0[j]) by {
            if j > 0 {
                assert(scan_tokens(toks, i, st).0[j] == rest[j - 1]);
            }
        }
    }
}

/// Every word of one redacted line is safe.
proof fn lemma_line_step_safe(st: WalkState, line: Seq<char>)
    ensures
        safe_text(line_step(st, line).0),
{
    let out = line_step(st, line).0;
    lemma_marker_safe();
    lemma_words_single(redacted_marker());
    lemma_words_are_words(line);
    let toks = words(line);
    if out == redacted_marker() {
    } else if out.len() == 0 {
        assert(words(out) =~= seq![]) by {
            assert(out =~= seq![]);
        }
    } else {
        let (inside, rn, auth, cont, started) = st;
        if !(cont is Some && all_ws_line(line)) && !(cont is Some && crate::redaction::leading_ws(
            line,
        ) > cont->0) {
            let st1 = crate::redaction::leave_continuation(st);
            if st1.1 {
                if toks.len() == 1 && (is_separator(toks[0]) || is_redaction_connector(toks[0])) {
                    lemma_words_single(toks[0]);
                    lemma_connector_safe(toks[0]);
                } else {
                    // `connector <redacted>`
                    assert(is_redaction_connector(toks[0]));
                    assert(out == toks[0] + seq![' '] + redacted_marker());
                    lemma_words_split(toks[0], ' ', redacted_marker());
                    lemma_words_single(toks[0]);
                    lemma_connector_safe(toks[0]);
                    assert(words(out) =~= seq![toks[0], redacted_marker()]);
                }
            } else {
                let r = redact_line(line, st1.1, st1.2);
                let sc = scan_tokens(
                    toks,
                    0,
                    LineScan { redact_next: st1.1, authorization_scheme: st1.2, continuation: false },
                );
                lemma_scan_safe(
                    toks,
                    0,
                    LineScan { redact_next: st1.1, authorization_scheme: st1.2, continuation: false },
                );
                lemma_words_join(sc.0, ' ');
                lemma_concat_words_of_words(sc.0);
            }
        }
    }
}

pub open spec fn all_ws_line(line: Seq<char>) -> bool {
    crate::text::all_ws(line)
}

/// Every line the walk emits has only safe words.
proof fn lemma_walk_safe(ls: Seq<Seq<char>>, i: int, st: WalkState)
    ensures
        forall|k: int|
            0 <= k < walk_lines(ls, i, st).len() ==> safe_text(#[trigger] walk_lines(ls, i, st)[k]),
    decreases ls.len() - i,
{
    if 0 <= i < ls.len() {
        let step = line_step(st, ls[i]);
        lemma_line_step_safe(st, ls[i]);
        lemma_walk_safe(ls, i + 1, step.1);
        let rest = walk_lines(ls, i + 1, step.1);
        assert forall|k: int| 0 <= k < walk_lines(ls, i, st).len() implies safe_text(
            #[trigger] walk_lines(ls, i, st)[k],
        ) by {
            if k > 0 {
                assert(walk_lines(ls, i, st)[k] == rest[k - 1]);
            }
        }
    }
}

/// Redaction law: no word of a redacted text is a provider key or a sensitive assignment.
///
/// Whatever the input, every whitespace-separated word of `redacted(text)` is neither an
/// `sk-`/`tsk-` key nor a `name=value` / `name:value` pair whose name is sensitive.
pub proof fn lemma_redaction_hides_secrets(text: Seq<char>)
    ensures
        safe_text(redacted(text)),
{
    let ls = redacted_lines(text);
    lemma_walk_safe(crate::text::lines(text), 0, crate::redaction::initial_walk());
    let walked = walk_lines(crate::text::lines(text), 0, crate::redaction::initial_walk());
    assert forall|k: int| 0 <= k < ls.len() implies safe_text(#[trigger] ls[k]) by {
        if k < walked.len() {
            assert(ls[k] == walked[k]);
        } else {
            assert(ls[k] =~= seq![]);
            assert(words(ls[k]) =~= seq![]) by {
                assert(ls[k] =~= seq![]);
            }
        }
    }
    lemma_words_join(ls, '\n');
    assert forall|j: int| 0 <= j < words(redacted(text)).len() implies safe_word(
        #[trigger] words(redacted(text))[j],
    ) by {
        lemma_concat_words_member(ls, j);
        let (k, m) = choose|k: int, m: int|
            0 <= k < ls.len() && 0 <= m < words(ls[k]).len() && concat_words(ls)[j]
                == #[trigger] words(ls[k])[m];
        assert(safe_text(ls[k]));
    }
}


// ---------------------------------------------------------------------------------------
// A private-key block ends at its END line
// ---------------------------------------------------------------------------------------

/// Lines that form one private-key block: a BEGIN line first, an END line last, and no END
/// line before it.
pub open spec fn is_key_block(ls: Seq<Seq<char>>) -> bool {
    &&& ls.len() > 0
    &&& is_private_key_begin(ls[0])
    &&& is_private_key_end(ls.last())
    &&& forall|j: int| 0 <= j < ls.len() - 1 ==> !is_private_key_end(#[trigger] ls[j])
}

proof fn lemma_lines_acc_split(a: Seq<char>, b: Seq<char>, cur: Seq<char>)
    ensures
        lines_acc(a + seq!['\n'] + b, cur) == lines_acc(a + seq!['\n'], cur) + lines_acc(b, seq![]),
    decreases a.len(),
{
    let s = a + seq!['\n'] + b;
    let t = a + seq!['\n'];
    if a.len() == 0 {
        assert(s.drop_first() =~= b);
        assert(t.drop_first() =~= Seq::<char>::empty());
        assert(s[0] == '\n' && t[0] == '\n');
        assert(lines_acc(Seq::<char>::empty(), seq![]) =~= Seq::<Seq<char>>::empty());
        assert(lines_acc(t, cur) =~= seq![crate::text::strip_cr(cur)]);
        assert(lines_acc(s, cur) =~= seq![crate::text::strip_cr(cur)] + lines_acc(b, seq![]));
    } else {
        let a1 = a.drop_first();
        assert(s.drop_first() =~= a1 + seq!['\n'] + b);
        assert(t.drop_first() =~= a1 + seq!['\n']);
        assert(s[0] == a[0] && t[0] == a[0]);
        if a[0] == '\n' {
            lemma_lines_acc_split(a1, b, seq![]);
            assert(lines_acc(s, cur) =~= seq![crate::text::strip_cr(cur)] + (lines_acc(t.drop_first(), seq![]) + lines_acc(b, seq![])));
            assert(lines_acc(t, cur) =~= seq![crate::text::strip_cr(cur)] + lines_acc(t.drop_first(), seq![]));
        } else {
            lemma_lines_acc_split(a1, b, cur.push(a[0]));
        }
    }
}

proof fn lemma_walk_shift(x: Seq<Seq<char>>, y: Seq<Seq<char>>, j: int, st: WalkState)
    requires
        0 <= j <= y.len(),
    ensures
        walk_lines(x + y, x.len() + j, st) == walk_lines(y, j, st),
    decreases y.len() - j,
{
    if j < y.len() {
        assert((x + y)[x.len() + j] == y[j]);
        lemma_walk_shift(x, y, j + 1, line_step(st, y[j]).1);
    }
}

proof fn lemma_walk_block(k: Seq<Seq<char>>, rest: Seq<Seq<char>>, i: int)
    requires
        is_key_block(k),
        0 <= i < k.len(),
    ensures
        walk_lines(k + rest, i, (i > 0, false, false, None, false))
            == Seq::new((k.len() - i) as nat, |j: int| redacted_marker()) + walk_lines(k + rest, k.len() as int, initial_walk()),
    decreases k.len() - i,
{
    let ls = k + rest;
    let st: WalkState = (i > 0, false, false, None, false);
    assert(ls[i] == k[i]);
    let step = line_step(st, ls[i]);
    if i < k.len() - 1 {
        assert(!is_private_key_end(k[i]));
        assert(step == (redacted_marker(), (true, false, false, None::<nat>, false)));
        lemma_walk_block(k, rest, i + 1);
        assert(Seq::new((k.len() - i) as nat, |j: int| redacted_marker()) =~= seq![redacted_marker()]
            + Seq::new((k.len() - (i + 1)) as nat, |j: int| redacted_marker()));
    } else {
        assert(k[i] == k.last());
        assert(step == (redacted_marker(), initial_walk()));
        assert(Seq::new((k.len() - i) as nat, |j: int| redacted_marker()) =~= seq![redacted_marker()]);
    }
}

/// A private-key block ends at its END line: when the text `k` forms a private-key block
/// (its lines are the BEGIN line, the key, and the END line), each of its lines is hidden,
/// and the text `t` after it is redacted exactly as if it stood alone; so its words that are
/// not secrets are kept.
pub proof fn lemma_private_key_block_ends(k: Seq<char>, t: Seq<char>)
    requires
        is_key_block(lines(k + seq!['\n'])),
        t.len() > 0,
    ensures
        redacted_lines(k + seq!['\n'] + t) == Seq::new(lines(k + seq!['\n']).len(), |j: int| redacted_marker())
            + redacted_lines(t),
{
    let kl = lines(k + seq!['\n']);
    let tl = lines(t);
    lemma_lines_acc_split(k, t, seq![]);
    assert(lines(k + seq!['\n'] + t) == kl + tl);
    lemma_walk_block(kl, tl, 0);
    lemma_walk_shift(kl, tl, 0, initial_walk());
    let whole = k + seq!['\n'] + t;
    assert(whole.last() == t.last());
    assert(initial_walk() == (false, false, false, None::<nat>, false));
}

} // verus!
