//! Text utilities the diagram components share: lexicographic ordering of
//! names, a verified sort, whitespace tokenization and line splitting.

use vstd::prelude::*;
use vstd::relations::{sorted_by, total_ordering};
use vstd::seq_lib::lemma_sorted_unique;
use vstd::string::StrSliceExecFns;

verus! {

/// Lexicographic "less than or equal" over character sequences, ordered by
/// code point; a prefix sorts before every extension of it.
pub open spec fn lex_le(a: Seq<char>, b: Seq<char>) -> bool
    decreases a.len(),
{
    if a.len() == 0 {
        true
    } else if b.len() == 0 {
        false
    } else if a[0] < b[0] {
        true
    } else if a[0] > b[0] {
        false
    } else {
        lex_le(a.drop_first(), b.drop_first())
    }
}

/// The ordering as a function value, for `sort_by`.
pub open spec fn lex_leq_fn() -> spec_fn(Seq<char>, Seq<char>) -> bool {
    |x: Seq<char>, y: Seq<char>| lex_le(x, y)
}

pub proof fn lemma_lex_le_refl(a: Seq<char>)
    ensures
        lex_le(a, a),
    decreases a.len(),
{
    if a.len() > 0 {
        lemma_lex_le_refl(a.drop_first());
    }
}

pub proof fn lemma_lex_le_total(a: Seq<char>, b: Seq<char>)
    ensures
        lex_le(a, b) || lex_le(b, a),
    decreases a.len(),
{
    if a.len() > 0 && b.len() > 0 && a[0] == b[0] {
        lemma_lex_le_total(a.drop_first(), b.drop_first());
    }
}

pub proof fn lemma_lex_le_antisym(a: Seq<char>, b: Seq<char>)
    requires
        lex_le(a, b),
        lex_le(b, a),
    ensures
        a == b,
    decreases a.len(),
{
    if a.len() == 0 {
        assert(b.len() == 0);
        assert(a =~= b);
    } else {
        assert(b.len() > 0);
        assert(a[0] == b[0]);
        lemma_lex_le_antisym(a.drop_first(), b.drop_first());
        assert(a =~= seq![a[0]] + a.drop_first());
        assert(b =~= seq![b[0]] + b.drop_first());
    }
}

pub proof fn lemma_lex_le_trans(a: Seq<char>, b: Seq<char>, c: Seq<char>)
    requires
        lex_le(a, b),
        lex_le(b, c),
    ensures
        lex_le(a, c),
    decreases a.len(),
{
    if a.len() > 0 && b.len() > 0 && c.len() > 0 {
        if a[0] == b[0] && b[0] == c[0] {
            lemma_lex_le_trans(a.drop_first(), b.drop_first(), c.drop_first());
        }
    }
}

pub proof fn lemma_lex_total_ordering()
    ensures
        total_ordering(lex_leq_fn()),
{
    let leq = lex_leq_fn();
    assert forall|a: Seq<char>| #[trigger] leq(a, a) by {
        lemma_lex_le_refl(a);
    }
    assert forall|a: Seq<char>, b: Seq<char>| #[trigger] leq(a, b) && #[trigger] leq(b, a)
        implies a == b by {
        lemma_lex_le_antisym(a, b);
    }
    assert forall|a: Seq<char>, b: Seq<char>, c: Seq<char>|
        #[trigger] leq(a, b) && #[trigger] leq(b, c) implies leq(a, c) by {
        lemma_lex_le_trans(a, b, c);
    }
    assert forall|a: Seq<char>, b: Seq<char>| #[trigger] leq(a, b) || #[trigger] leq(b, a) by {
        lemma_lex_le_total(a, b);
    }
}

/// Whether `a` sorts at or before `b` in lexicographic code-point order.
pub fn str_le(a: &String, b: &String) -> (r: bool)
    ensures
        r == lex_le(a@, b@),
{
    let na = a.as_str().unicode_len();
    let nb = b.as_str().unicode_len();
    let mut i: usize = 0;
    proof {
        assert(a@.skip(0) =~= a@);
        assert(b@.skip(0) =~= b@);
    }
    while i < na && i < nb
        invariant
            na == a@.len(),
            nb == b@.len(),
            i <= na,
            i <= nb,
            lex_le(a@, b@) == lex_le(a@.skip(i as int), b@.skip(i as int)),
        decreases na - i,
    {
        let ca = a.as_str().get_char(i);
        let cb = b.as_str().get_char(i);
        proof {
            assert(a@.skip(i as int)[0] == a@[i as int]);
            assert(b@.skip(i as int)[0] == b@[i as int]);
        }
        if ca < cb {
            return true;
        }
        if cb < ca {
            return false;
        }
        proof {
            assert(a@.skip(i as int).drop_first() =~= a@.skip(i + 1));
            assert(b@.skip(i as int).drop_first() =~= b@.skip(i + 1));
        }
        i = i + 1;
    }
    proof {
        if i == na {
            assert(a@.skip(i as int).len() == 0);
        } else {
            assert(b@.skip(i as int).len() == 0);
            assert(a@.skip(i as int).len() > 0);
        }
    }
    na <= nb
}

/// The names of `s`, sorted lexicographically.
pub open spec fn sort_names(s: Seq<Seq<char>>) -> Seq<Seq<char>> {
    s.sort_by(lex_leq_fn())
}

/// Law: the name order the emitters use is a lexicographically sorted
/// permutation of the names given.
pub proof fn lemma_sort_names_sorted(s: Seq<Seq<char>>)
    ensures
        sorted_by(sort_names(s), lex_leq_fn()),
        sort_names(s).to_multiset() == s.to_multiset(),
{
    lemma_lex_total_ordering();
    s.lemma_sort_by_ensures(lex_leq_fn());
    assert(sort_names(s).to_multiset() =~= s.to_multiset());
}

/// The first position in the sorted list `out` whose element sorts strictly
/// after `x`; the length of `out` if there is none.
fn find_insert_pos(out: &Vec<String>, x: &String) -> (p: usize)
    ensures
        p <= out@.len(),
        forall|t: int| 0 <= t < p ==> lex_le(out.deep_view()[t], x@),
        p < out@.len() ==> !lex_le(out.deep_view()[p as int], x@),
{
    let m = out.len();
    for p in 0..m
        invariant
            m == out@.len(),
            forall|t: int| 0 <= t < p ==> lex_le(out.deep_view()[t], x@),
    {
        if !str_le(&out[p], x) {
            return p;
        }
    }
    m
}

/// Sorts the given names lexicographically by code point.
pub fn sort_strings(v: &Vec<String>) -> (r: Vec<String>)
    ensures
        r.deep_view() == sort_names(v.deep_view()),
{
    let ghost leq = lex_leq_fn();
    let mut out: Vec<String> = Vec::new();
    let n = v.len();
    proof {
        lemma_lex_total_ordering();
        assert(v.deep_view().take(0) =~= Seq::<Seq<char>>::empty());
        out.deep_view().to_multiset_ensures();
        v.deep_view().take(0).to_multiset_ensures();
        assert(out.deep_view().to_multiset() =~= v.deep_view().take(0).to_multiset());
    }
    for i in 0..n
        invariant
            n == v@.len(),
            leq == lex_leq_fn(),
            total_ordering(leq),
            sorted_by(out.deep_view(), leq),
            out.deep_view().to_multiset() == v.deep_view().take(i as int).to_multiset(),
    {
        let x = v[i].clone();
        let ghost xv = x@;
        let ghost out0 = out.deep_view();
        let p = find_insert_pos(&out, &x);
        proof {
            if p < out.len() {
                assert(!lex_le(out0[p as int], xv));
                lemma_lex_le_total(out0[p as int], xv);
                assert(leq(xv, out0[p as int]));
            }
            assert forall|t: int| 0 <= t < p implies #[trigger] leq(out0[t], xv) by {
                assert(lex_le(out0[t], xv));
            }
        }
        out.insert(p, x);
        proof {
            let now = out.deep_view();
            assert(now =~~= out0.insert(p as int, xv));
            // sortedness is preserved around the insertion point
            assert forall|s: int, t: int| 0 <= s < t < now.len() implies #[trigger] leq(
                now[s],
                now[t],
            ) by {
                if s < p && t < p {
                    assert(now[s] == out0[s] && now[t] == out0[t]);
                } else if s < p && t == p {
                    assert(now[s] == out0[s] && now[t] == xv);
                } else if s < p && t > p {
                    assert(now[s] == out0[s] && now[t] == out0[t - 1]);
                    if t - 1 >= p {
                        if t - 1 == p {
                            if p < out0.len() {
                                assert(leq(out0[s], out0[p as int]));
                            }
                        }
                        assert(leq(out0[s], out0[t - 1]));
                    }
                } else if s == p {
                    assert(now[s] == xv && now[t] == out0[t - 1]);
                    assert(t - 1 >= p);
                    if t - 1 == p {
                        assert(leq(xv, out0[p as int]));
                    } else {
                        assert(leq(out0[p as int], out0[t - 1]));
                        assert(leq(xv, out0[p as int]));
                        lemma_lex_le_trans(xv, out0[p as int], out0[t - 1]);
                    }
                } else {
                    assert(now[s] == out0[s - 1] && now[t] == out0[t - 1]);
                    assert(leq(out0[s - 1], out0[t - 1]));
                }
            }
            // multiset equality is preserved
            out0.to_multiset_ensures();
            broadcast use vstd::seq_lib::group_to_multiset_ensures;

            assert(now.to_multiset() == out0.to_multiset().insert(xv));
            assert(v.deep_view().take(i + 1) =~= v.deep_view().take(i as int).push(xv));
            v.deep_view().take(i as int).to_multiset_ensures();
            assert(v.deep_view().take(i + 1).to_multiset() == v.deep_view().take(
                i as int,
            ).to_multiset().insert(xv));
        }
    }
    proof {
        assert(v.deep_view().take(n as int) =~= v.deep_view());
        v.deep_view().lemma_sort_by_ensures(leq);
        lemma_sorted_unique(out.deep_view(), v.deep_view().sort_by(leq), leq);
    }
    out
}

/// The Unicode white-space characters, as the standard library's
/// `char::is_whitespace` recognizes them.
pub open spec fn is_space_char(c: char) -> bool {
    c == ' ' || c == '\t' || c == '\n' || c == '\u{b}' || c == '\u{c}' || c == '\r'
        || c == '\u{85}' || c == '\u{a0}' || c == '\u{1680}' || ('\u{2000}' <= c && c
        <= '\u{200a}') || c == '\u{2028}' || c == '\u{2029}' || c == '\u{202f}' || c
        == '\u{205f}' || c == '\u{3000}'
}

fn is_space(c: char) -> (r: bool)
    ensures
        r == is_space_char(c),
{
    c == ' ' || c == '\t' || c == '\n' || c == '\u{b}' || c == '\u{c}' || c == '\r'
        || c == '\u{85}' || c == '\u{a0}' || c == '\u{1680}' || ('\u{2000}' <= c && c
        <= '\u{200a}') || c == '\u{2028}' || c == '\u{2029}' || c == '\u{202f}' || c
        == '\u{205f}' || c == '\u{3000}'
}

/// The longest non-space prefix of `s`.
pub open spec fn leading_token(s: Seq<char>) -> Seq<char>
    decreases s.len(),
{
    if s.len() == 0 || is_space_char(s[0]) {
        Seq::empty()
    } else {
        seq![s[0]] + leading_token(s.drop_first())
    }
}

pub proof fn lemma_leading_token_len(s: Seq<char>)
    ensures
        leading_token(s).len() <= s.len(),
        s.len() > 0 && !is_space_char(s[0]) ==> leading_token(s).len() >= 1,
    decreases s.len(),
{
    if s.len() > 0 && !is_space_char(s[0]) {
        lemma_leading_token_len(s.drop_first());
    }
}

/// The whitespace-separated tokens of `s`, in order.
pub open spec fn tokens_of(s: Seq<char>) -> Seq<Seq<char>>
    decreases s.len(),
{
    if s.len() == 0 {
        Seq::empty()
    } else if is_space_char(s[0]) {
        tokens_of(s.drop_first())
    } else {
        proof {
            lemma_leading_token_len(s);
        }
        seq![leading_token(s)] + tokens_of(s.skip(leading_token(s).len() as int))
    }
}

proof fn lemma_leading_token_range(s: Seq<char>, j: int)
    requires
        0 <= j <= s.len(),
        forall|t: int| 0 <= t < j ==> !is_space_char(#[trigger] s[t]),
        j == s.len() || is_space_char(s[j]),
    ensures
        leading_token(s) == s.take(j),
    decreases j,
{
    if j == 0 {
        assert(leading_token(s) =~= s.take(0));
    } else {
        assert(!is_space_char(s[0]));
        assert forall|t: int| 0 <= t < j - 1 implies !is_space_char(
            #[trigger] s.drop_first()[t],
        ) by {
            assert(s.drop_first()[t] == s[t + 1]);
        }
        assert(j - 1 == s.drop_first().len() || is_space_char(s.drop_first()[j - 1]));
        lemma_leading_token_range(s.drop_first(), j - 1);
        assert(seq![s[0]] + s.drop_first().take(j - 1) =~= s.take(j));
    }
}

/// The end of the token that starts at `start`: the index of the next
/// white-space character, or the end of the text.
fn token_end(s: &str, start: usize, n: usize) -> (j: usize)
    requires
        n == s@.len(),
        start < n,
        !is_space_char(s@[start as int]),
    ensures
        start < j <= n,
        forall|t: int| start <= t < j ==> !is_space_char(#[trigger] s@[t]),
        j < n ==> is_space_char(s@[j as int]),
{
    let mut j = start + 1;
    while j < n
        invariant
            n == s@.len(),
            start < j <= n,
            forall|t: int| start <= t < j ==> !is_space_char(#[trigger] s@[t]),
        decreases n - j,
    {
        if is_space(s.get_char(j)) {
            return j;
        }
        j = j + 1;
    }
    n
}

/// Splits `s` into its whitespace-separated tokens.
pub fn tokenize(s: &str) -> (r: Vec<String>)
    ensures
        r.deep_view() == tokens_of(s@),
{
    let n = s.unicode_len();
    let mut out: Vec<String> = Vec::new();
    let mut i: usize = 0;
    proof {
        assert(s@.skip(0) =~= s@);
        assert(out.deep_view() + tokens_of(s@) =~~= tokens_of(s@));
    }
    while i < n
        invariant
            n == s@.len(),
            i <= n,
            out.deep_view() + tokens_of(s@.skip(i as int)) == tokens_of(s@),
        decreases n - i,
    {
        let c = s.get_char(i);
        let ghost suf = s@.skip(i as int);
        proof {
            assert(suf[0] == s@[i as int]);
        }
        if is_space(c) {
            proof {
                assert(suf.drop_first() =~= s@.skip(i + 1));
            }
            i = i + 1;
        } else {
            let j = token_end(s, i, n);
            let t = s.substring_char(i, j).to_owned();
            let ghost out0 = out.deep_view();
            let ghost tv = t@;
            out.push(t);
            proof {
                assert forall|u: int| 0 <= u < j - i implies !is_space_char(
                    #[trigger] suf[u],
                ) by {
                    assert(suf[u] == s@[i + u]);
                }
                assert(j - i == suf.len() || is_space_char(suf[j - i]));
                lemma_leading_token_range(suf, j - i);
                assert(suf.take(j - i) =~= s@.subrange(i as int, j as int));
                assert(tv == leading_token(suf));
                lemma_leading_token_len(suf);
                assert(suf.skip(j - i) =~= s@.skip(j as int));
                assert(out.deep_view() =~~= out0.push(tv));
                assert(tokens_of(suf) == seq![leading_token(suf)] + tokens_of(
                    suf.skip(leading_token(suf).len() as int),
                ));
                assert(out.deep_view() + tokens_of(s@.skip(j as int)) =~~= out0 + tokens_of(
                    suf,
                ));
            }
            i = j;
        }
    }
    proof {
        assert(s@.skip(n as int) =~= Seq::<char>::empty());
        assert(out.deep_view() + tokens_of(Seq::<char>::empty()) =~~= out.deep_view());
    }
    out
}

/// A line with one trailing carriage return removed, as the standard line
/// splitter does it.
pub open spec fn strip_cr(l: Seq<char>) -> Seq<char> {
    if l.len() > 0 && l.last() == '\r' {
        l.drop_last()
    } else {
        l
    }
}

/// The index of the first newline character of `s`; `s.len()` if none.
pub open spec fn nl_index(s: Seq<char>) -> int
    decreases s.len(),
{
    if s.len() == 0 {
        0
    } else if s[0] == '\n' {
        0
    } else {
        1 + nl_index(s.drop_first())
    }
}

pub proof fn lemma_nl_index(s: Seq<char>)
    ensures
        0 <= nl_index(s) <= s.len(),
        nl_index(s) < s.len() ==> s[nl_index(s)] == '\n',
        forall|t: int| 0 <= t < nl_index(s) ==> s[t] != '\n',
    decreases s.len(),
{
    if s.len() > 0 && s[0] != '\n' {
        lemma_nl_index(s.drop_first());
        assert forall|t: int| 0 <= t < nl_index(s) implies s[t] != '\n' by {
            if t > 0 {
                assert(s.drop_first()[t - 1] == s[t]);
            }
        }
    }
}

proof fn lemma_nl_index_unique(s: Seq<char>, k: int)
    requires
        0 <= k <= s.len(),
        forall|t: int| 0 <= t < k ==> #[trigger] s[t] != '\n',
        k == s.len() || s[k] == '\n',
    ensures
        nl_index(s) == k,
    decreases k,
{
    if k == 0 {
    } else {
        assert(s[0] != '\n');
        assert forall|t: int| 0 <= t < k - 1 implies #[trigger] s.drop_first()[t] != '\n' by {
            assert(s.drop_first()[t] == s[t + 1]);
        }
        assert(k - 1 == s.drop_first().len() || s.drop_first()[k - 1] == '\n');
        lemma_nl_index_unique(s.drop_first(), k - 1);
    }
}

/// The lines of `s`: pieces split at newline characters, each with a trailing
/// carriage return removed, and no empty final piece after a trailing newline.
pub open spec fn lines_of(s: Seq<char>) -> Seq<Seq<char>>
    decreases s.len(),
{
    if s.len() == 0 {
        Seq::empty()
    } else {
        proof {
            lemma_nl_index(s);
        }
        let k = nl_index(s);
        if k == s.len() {
            seq![strip_cr(s)]
        } else {
            seq![strip_cr(s.take(k))] + lines_of(s.skip(k + 1))
        }
    }
}

/// The position of the first newline at or after `start`, or the text's end.
fn nl_end(s: &str, start: usize, n: usize) -> (j: usize)
    requires
        n == s@.len(),
        start <= n,
    ensures
        start <= j <= n,
        forall|t: int| start <= t < j ==> #[trigger] s@[t] != '\n',
        j < n ==> s@[j as int] == '\n',
{
    let mut j = start;
    while j < n
        invariant
            n == s@.len(),
            start <= j <= n,
            forall|t: int| start <= t < j ==> #[trigger] s@[t] != '\n',
        decreases n - j,
    {
        if s.get_char(j) == '\n' {
            return j;
        }
        j = j + 1;
    }
    n
}

/// Splits `s` into lines, as the line-based readers of the diagram do.
pub fn split_lines(s: &str) -> (r: Vec<String>)
    ensures
        r.deep_view() == lines_of(s@),
{
    let n = s.unicode_len();
    let mut out: Vec<String> = Vec::new();
    let mut i: usize = 0;
    proof {
        assert(s@.skip(0) =~= s@);
        assert(out.deep_view() + lines_of(s@) =~~= lines_of(s@));
    }
    while i < n
        invariant
            n == s@.len(),
            i <= n,
            out.deep_view() + lines_of(s@.skip(i as int)) == lines_of(s@),
        decreases n - i,
    {
        let j = nl_end(s, i, n);
        let end = if j > i && s.get_char(j - 1) == '\r' {
            j - 1
        } else {
            j
        };
        let piece = s.substring_char(i, end).to_owned();
        let ghost out0 = out.deep_view();
        let ghost pv = piece@;
        out.push(piece);
        proof {
            let suf = s@.skip(i as int);
            assert forall|u: int| 0 <= u < j - i implies #[trigger] suf[u] != '\n' by {
                assert(suf[u] == s@[i + u]);
            }
            assert(j - i == suf.len() || suf[j - i] == '\n');
            lemma_nl_index_unique(suf, j - i);
            let full = suf.take(j - i);
            assert(full =~= s@.subrange(i as int, j as int));
            if j > i && s@[j - 1] == '\r' {
                assert(full.last() == s@[j - 1]);
                assert(full.drop_last() =~= s@.subrange(i as int, j - 1));
                assert(pv == strip_cr(full));
            } else {
                assert(full.len() == 0 || full.last() != '\r');
                assert(pv == strip_cr(full));
            }
            assert(out.deep_view() =~~= out0.push(pv));
            if j == n {
                assert(full =~= suf);
                assert(lines_of(suf) == seq![strip_cr(suf)]);
                assert(out.deep_view() + lines_of(s@.skip(n as int)) =~~= out0 + lines_of(
                    suf,
                ));
            } else {
                assert(suf.skip(j - i + 1) =~= s@.skip(j + 1));
                assert(lines_of(suf) == seq![strip_cr(full)] + lines_of(s@.skip(j + 1)));
                assert(out.deep_view() + lines_of(s@.skip(j + 1)) =~~= out0 + lines_of(suf));
            }
        }
        i = if j < n {
            j + 1
        } else {
            n
        };
    }
    proof {
        assert(s@.skip(n as int) =~= Seq::<char>::empty());
        assert(out.deep_view() + lines_of(Seq::<char>::empty()) =~~= out.deep_view());
    }
    out
}

} // verus!
