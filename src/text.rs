use vstd::prelude::*;

verus! {

/// Unicode `White_Space`: the characters that `char::is_whitespace` accepts.
pub open spec fn is_space(c: char) -> bool {
    ('\u{9}' <= c && c <= '\u{d}') || c == ' ' || c == '\u{85}' || c == '\u{a0}' || c
        == '\u{1680}' || ('\u{2000}' <= c && c <= '\u{200a}') || c == '\u{2028}' || c
        == '\u{2029}' || c == '\u{202f}' || c == '\u{205f}' || c == '\u{3000}'
}

/// Decides `is_space`.
pub fn is_space_char(c: char) -> (r: bool)
    ensures
        r == is_space(c),
{
    ('\u{9}' <= c && c <= '\u{d}') || c == ' ' || c == '\u{85}' || c == '\u{a0}' || c
        == '\u{1680}' || ('\u{2000}' <= c && c <= '\u{200a}') || c == '\u{2028}' || c
        == '\u{2029}' || c == '\u{202f}' || c == '\u{205f}' || c == '\u{3000}'
}

/// A separator: the given character, or whitespace when none is given.
pub open spec fn is_sep(c: char, sep: Option<char>) -> bool {
    match sep {
        Some(x) => c == x,
        None => is_space(c),
    }
}

/// The maximal runs of non-separator characters of `s`, as half-open spans,
/// from left to right.
pub open spec fn spans(s: Seq<char>, sep: Option<char>) -> Seq<(int, int)>
    decreases s.len(),
{
    if s.len() == 0 {
        seq![]
    } else {
        let prev = s.drop_last();
        let rest = spans(prev, sep);
        let n = s.len() - 1;
        if is_sep(s.last(), sep) {
            rest
        } else if n > 0 && !is_sep(prev.last(), sep) {
            rest.update(rest.len() - 1, (rest.last().0, n + 1))
        } else {
            rest.push((n, n + 1))
        }
    }
}

/// The pieces of `s` between separators, empty pieces left out
/// (`split_whitespace`, or `split(',')` without the empty pieces).
pub open spec fn pieces(s: Seq<char>, sep: Option<char>) -> Seq<Seq<char>> {
    spans(s, sep).map_values(|p: (int, int)| s.subrange(p.0, p.1))
}

/// `s` without the whitespace at both ends (`str::trim`).
pub open spec fn trimmed(s: Seq<char>) -> Seq<char> {
    let sp = spans(s, None);
    if sp.len() == 0 {
        seq![]
    } else {
        s.subrange(sp[0].0, sp.last().1)
    }
}

/// When `s` ends in a non-separator, its last span ends at its end.
pub proof fn lemma_spans_nonempty_end(s: Seq<char>, sep: Option<char>)
    requires
        s.len() > 0,
        !is_sep(s.last(), sep),
    ensures
        spans(s, sep).len() > 0,
        spans(s, sep).last().1 == s.len(),
    decreases s.len(),
{
    let prev = s.drop_last();
    if s.len() > 1 && !is_sep(prev.last(), sep) {
        lemma_spans_nonempty_end(prev, sep);
    }
}

/// Every span lies inside `s`, is non-empty, and none starts before the first.
pub proof fn lemma_spans_bounds(s: Seq<char>, sep: Option<char>)
    ensures
        forall|j: int|
            0 <= j < spans(s, sep).len() ==> 0 <= #[trigger] spans(s, sep)[j].0 < spans(
                s,
                sep,
            )[j].1 <= s.len() && spans(s, sep)[0].0 <= spans(s, sep)[j].0,
    decreases s.len(),
{
    if s.len() > 0 {
        let prev = s.drop_last();
        lemma_spans_bounds(prev, sep);
        let rest = spans(prev, sep);
        let n = s.len() - 1;
        if !is_sep(s.last(), sep) && n > 0 && !is_sep(prev.last(), sep) {
            lemma_spans_nonempty_end(prev, sep);
            let sp = spans(s, sep);
            assert forall|j: int| 0 <= j < sp.len() implies 0 <= #[trigger] sp[j].0 < sp[j].1
                <= s.len() && sp[0].0 <= sp[j].0 by {
                assert(rest[j].0 <= rest[j].1);
                assert(rest[0].0 <= rest[j].0);
            }
        }
    }
}

/// Spans held as pairs of machine integers, seen as pairs of integers.
pub open spec fn span_view(r: Seq<(usize, usize)>) -> Seq<(int, int)> {
    r.map_values(|p: (usize, usize)| (p.0 as int, p.1 as int))
}

/// Computes `spans(s@, sep)`.
pub fn find_spans(s: &str, sep: Option<char>) -> (r: Vec<(usize, usize)>)
    ensures
        span_view(r@) == spans(s@, sep),
{
    let n = s.unicode_len();
    let mut r: Vec<(usize, usize)> = Vec::new();
    let mut i: usize = 0;
    let mut in_piece = false;
    assert(span_view(r@) =~= spans(s@.subrange(0, 0), sep));
    while i < n
        invariant
            n == s@.len(),
            i <= n,
            span_view(r@) == spans(s@.subrange(0, i as int), sep),
            in_piece == (i > 0 && !is_sep(s@[i - 1], sep)),
            in_piece ==> r@.len() > 0,
        decreases n - i,
    {
        let c = s.get_char(i);
        let is_break = match sep {
            Some(x) => c == x,
            None => is_space_char(c),
        };
        let ghost pre = s@.subrange(0, i as int);
        let ghost cur = s@.subrange(0, i + 1);
        let ghost old_r = r@;
        assert(cur.drop_last() =~= pre);
        assert(cur.last() == c);
        if i > 0 {
            assert(pre.last() == s@[i - 1]);
        }
        if is_break {
            in_piece = false;
        } else if in_piece {
            let k = r.len() - 1;
            let start = r[k].0;
            r.set(k, (start, i + 1));
            assert(span_view(r@) =~= span_view(old_r).update(k as int, (start as int, i + 1)));
        } else {
            r.push((i, i + 1));
            in_piece = true;
            assert(span_view(r@) =~= span_view(old_r).push((i as int, i + 1)));
        }
        i = i + 1;
    }
    assert(s@.subrange(0, n as int) =~= s@);
    r
}

/// Computes `trimmed(s@)`.
pub fn trim(s: &str) -> (r: String)
    ensures
        r@ == trimmed(s@),
{
    let sp = find_spans(s, None);
    proof {
        lemma_spans_bounds(s@, None);
    }
    if sp.len() == 0 {
        return String::new();
    }
    let last = sp.len() - 1;
    assert(span_view(sp@)[last as int] == spans(s@, None).last());
    assert(span_view(sp@)[0] == spans(s@, None)[0]);
    let t = s.substring_char(sp[0].0, sp[last].1);
    String::from_str(t)
}

/// Decides whether `p` is a prefix of `s`.
pub fn has_prefix(s: &str, p: &str) -> (r: bool)
    ensures
        r == (p@.len() <= s@.len() && s@.subrange(0, p@.len() as int) == p@),
{
    let n = s.unicode_len();
    let m = p.unicode_len();
    if m > n {
        return false;
    }
    let mut i: usize = 0;
    while i < m
        invariant
            m == p@.len(),
            n == s@.len(),
            m <= n,
            i <= m,
            forall|k: int| 0 <= k < i ==> s@[k] == p@[k],
        decreases m - i,
    {
        if s.get_char(i) != p.get_char(i) {
            assert(s@.subrange(0, m as int)[i as int] != p@[i as int]);
            return false;
        }
        i = i + 1;
    }
    assert(s@.subrange(0, m as int) =~= p@);
    true
}

/// Decides whether two strings hold the same characters.
pub fn same_text(a: &str, b: &str) -> (r: bool)
    ensures
        r == (a@ == b@),
{
    let n = a.unicode_len();
    let m = b.unicode_len();
    if n != m {
        return false;
    }
    let r = has_prefix(a, b);
    assert(a@.subrange(0, m as int) =~= a@);
    r
}

/// The result of `str::to_uppercase`: a function of the characters alone.
pub uninterp spec fn upper_of(s: Seq<char>) -> Seq<char>;

/// Relies on `str::to_uppercase`: the upper-case form of the characters.
#[verifier::external_body]
pub(crate) fn to_upper(s: &str) -> (r: String)
    ensures
        r@ == upper_of(s@),
{
    s.to_uppercase()
}

} // verus!
