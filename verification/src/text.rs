//! Character-sequence primitives shared by all parsers.
//!
//! Text is handled as a sequence of Unicode scalar values, so every index is a
//! character index and every length a character count unless a name says
//! otherwise.

use vstd::prelude::*;
use vstd::slice::slice_subrange;

verus! {

/// `String::push` of the standard library, taken on trust: afterwards the
/// string holds the characters it held before, followed by `c`.
pub assume_specification[ String::push ](s: &mut String, c: char)
    ensures
        final(s)@ == old(s)@.push(c),
;

/// The characters of `s`, in order.
pub fn chars_of(s: &str) -> (out: Vec<char>)
    ensures
        out@ == s@,
{
    let mut out: Vec<char> = Vec::new();
    for c in it: s.chars()
        invariant
            it.seq() == s@,
            out@ == s@.take(it.index()),
    {
        out.push(c);
    }
    out
}

/// The string made of the characters of `v`, in order.
pub fn string_of(v: &[char]) -> (out: String)
    ensures
        out@ == v@,
{
    let mut out = String::new();
    let mut i: usize = 0;
    while i < v.len()
        invariant
            i <= v.len(),
            out@ == v@.take(i as int),
        decreases v.len() - i,
    {
        out.push(v[i]);
        i += 1;
    }
    out
}

/// Appends the characters of `s` to `out`.
pub fn push_all(out: &mut Vec<char>, s: &[char])
    ensures
        final(out)@ == old(out)@ + s@,
{
    let mut i: usize = 0;
    while i < s.len()
        invariant
            i <= s.len(),
            out@ == old(out)@ + s@.take(i as int),
        decreases s.len() - i,
    {
        out.push(s[i]);
        i += 1;
    }
}

/// The views of a vector of character vectors, element by element.
pub open spec fn views(v: Seq<Vec<char>>) -> Seq<Seq<char>> {
    Seq::new(v.len(), |i: int| v[i]@)
}

// ---------------------------------------------------------------------------
// Whitespace
// ---------------------------------------------------------------------------

/// Whether `c` has the Unicode `White_Space` property.
pub open spec fn is_space(c: char) -> bool {
    ||| '\u{9}' <= c <= '\u{d}'
    ||| c == ' '
    ||| c == '\u{85}'
    ||| c == '\u{a0}'
    ||| c == '\u{1680}'
    ||| '\u{2000}' <= c <= '\u{200a}'
    ||| c == '\u{2028}'
    ||| c == '\u{2029}'
    ||| c == '\u{202f}'
    ||| c == '\u{205f}'
    ||| c == '\u{3000}'
}

/// Tells whether `c` is whitespace.
#[verifier::when_used_as_spec(is_space)]
pub fn is_space_char(c: char) -> (b: bool)
    ensures
        b == is_space(c),
{
    ('\u{9}' <= c && c <= '\u{d}') || c == ' ' || c == '\u{85}' || c == '\u{a0}' || c
        == '\u{1680}' || ('\u{2000}' <= c && c <= '\u{200a}') || c == '\u{2028}' || c
        == '\u{2029}' || c == '\u{202f}' || c == '\u{205f}' || c == '\u{3000}'
}

// ---------------------------------------------------------------------------
// Spans: the longest run of characters with a property, at either end
// ---------------------------------------------------------------------------

/// Length of the longest prefix of `s` whose characters all satisfy `p`.
pub open spec fn span(s: Seq<char>, p: spec_fn(char) -> bool) -> int
    decreases s.len(),
{
    if s.len() > 0 && p(s[0]) {
        1 + span(s.drop_first(), p)
    } else {
        0
    }
}

/// Length of the longest suffix of `s` whose characters all satisfy `p`.
pub open spec fn back_span(s: Seq<char>, p: spec_fn(char) -> bool) -> int
    decreases s.len(),
{
    if s.len() > 0 && p(s.last()) {
        1 + back_span(s.drop_last(), p)
    } else {
        0
    }
}

/// A span stays inside the sequence, covers only characters with the
/// property, and stops at the first character without it.
pub proof fn lemma_span(s: Seq<char>, p: spec_fn(char) -> bool)
    ensures
        0 <= span(s, p) <= s.len(),
        forall|j: int| 0 <= j < span(s, p) ==> p(#[trigger] s[j]),
        span(s, p) < s.len() ==> !p(s[span(s, p)]),
    decreases s.len(),
{
    if s.len() > 0 && p(s[0]) {
        let t = s.drop_first();
        lemma_span(t, p);
        assert forall|j: int| 0 <= j < span(s, p) implies p(#[trigger] s[j]) by {
            if j > 0 {
                assert(s[j] == t[j - 1]);
            }
        }
        if span(s, p) < s.len() {
            assert(s[span(s, p)] == t[span(t, p)]);
        }
    }
}

/// Any position with the three properties of `lemma_span` is the span.
pub proof fn lemma_span_is(s: Seq<char>, p: spec_fn(char) -> bool, k: int)
    requires
        0 <= k <= s.len(),
        forall|j: int| 0 <= j < k ==> p(#[trigger] s[j]),
        k < s.len() ==> !p(s[k]),
    ensures
        span(s, p) == k,
    decreases s.len(),
{
    if k > 0 {
        let t = s.drop_first();
        assert(p(s[0]));
        assert forall|j: int| 0 <= j < k - 1 implies p(#[trigger] t[j]) by {
            assert(t[j] == s[j + 1]);
        }
        if k - 1 < t.len() {
            assert(t[k - 1] == s[k]);
        }
        lemma_span_is(t, p, k - 1);
    }
}

/// The mirror image of `lemma_span`.
pub proof fn lemma_back_span(s: Seq<char>, p: spec_fn(char) -> bool)
    ensures
        0 <= back_span(s, p) <= s.len(),
        forall|j: int| s.len() - back_span(s, p) <= j < s.len() ==> p(#[trigger] s[j]),
        back_span(s, p) < s.len() ==> !p(s[s.len() - back_span(s, p) - 1]),
    decreases s.len(),
{
    if s.len() > 0 && p(s.last()) {
        let t = s.drop_last();
        lemma_back_span(t, p);
        assert forall|j: int| s.len() - back_span(s, p) <= j < s.len() implies p(
            #[trigger] s[j],
        ) by {
            if j < s.len() - 1 {
                assert(s[j] == t[j]);
            }
        }
        if back_span(s, p) < s.len() {
            assert(s[s.len() - back_span(s, p) - 1] == t[t.len() - back_span(t, p) - 1]);
        }
    }
}

/// The mirror image of `lemma_span_is`: `k` is where the suffix starts.
pub proof fn lemma_back_span_is(s: Seq<char>, p: spec_fn(char) -> bool, k: int)
    requires
        0 <= k <= s.len(),
        forall|j: int| k <= j < s.len() ==> p(#[trigger] s[j]),
        k > 0 ==> !p(s[k - 1]),
    ensures
        back_span(s, p) == s.len() - k,
    decreases s.len(),
{
    if k < s.len() {
        let t = s.drop_last();
        assert(p(s.last()));
        assert forall|j: int| k <= j < t.len() implies p(#[trigger] t[j]) by {
            assert(t[j] == s[j]);
        }
        if k > 0 {
            assert(t[k - 1] == s[k - 1]);
        }
        lemma_back_span_is(t, p, k);
    }
}


/// The property of being whitespace.
pub open spec fn space() -> spec_fn(char) -> bool {
    |c: char| is_space(c)
}

/// The property of not being whitespace.
pub open spec fn non_space() -> spec_fn(char) -> bool {
    |c: char| !is_space(c)
}

/// The property of being the character `x`.
pub open spec fn is_char(x: char) -> spec_fn(char) -> bool {
    |c: char| c == x
}

/// The property of being any character but `x`.
pub open spec fn not_char(x: char) -> spec_fn(char) -> bool {
    |c: char| c != x
}

/// Number of whitespace characters at the start of `s`.
pub fn leading_space(s: &[char]) -> (k: usize)
    ensures
        k == span(s@, space()),
{
    let mut k: usize = 0;
    while k < s.len() && is_space_char(s[k])
        invariant
            k <= s.len(),
            forall|j: int| 0 <= j < k ==> is_space(#[trigger] s@[j]),
        decreases s.len() - k,
    {
        k += 1;
    }
    proof {
        lemma_span_is(s@, space(), k as int);
    }
    k
}

/// Number of characters at the start of `s` up to the first whitespace.
pub fn leading_non_space(s: &[char]) -> (k: usize)
    ensures
        k == span(s@, non_space()),
{
    let mut k: usize = 0;
    while k < s.len() && !is_space_char(s[k])
        invariant
            k <= s.len(),
            forall|j: int| 0 <= j < k ==> !is_space(#[trigger] s@[j]),
        decreases s.len() - k,
    {
        k += 1;
    }
    proof {
        lemma_span_is(s@, non_space(), k as int);
    }
    k
}

/// Number of whitespace characters at the end of `s`.
pub fn trailing_space(s: &[char]) -> (k: usize)
    ensures
        k == back_span(s@, space()),
{
    let mut i: usize = s.len();
    while i > 0 && is_space_char(s[i - 1])
        invariant
            i <= s.len(),
            forall|j: int| i <= j < s.len() ==> is_space(#[trigger] s@[j]),
        decreases i,
    {
        i -= 1;
    }
    proof {
        lemma_back_span_is(s@, space(), i as int);
    }
    s.len() - i
}

/// Number of copies of `x` at the start of `s`.
pub fn leading_char(s: &[char], x: char) -> (k: usize)
    ensures
        k == span(s@, is_char(x)),
{
    let mut k: usize = 0;
    while k < s.len() && s[k] == x
        invariant
            k <= s.len(),
            forall|j: int| 0 <= j < k ==> #[trigger] s@[j] == x,
        decreases s.len() - k,
    {
        k += 1;
    }
    proof {
        lemma_span_is(s@, is_char(x), k as int);
    }
    k
}

/// Number of characters at the start of `s` before the first `x`.
pub fn leading_not_char(s: &[char], x: char) -> (k: usize)
    ensures
        k == span(s@, not_char(x)),
{
    let mut k: usize = 0;
    while k < s.len() && s[k] != x
        invariant
            k <= s.len(),
            forall|j: int| 0 <= j < k ==> #[trigger] s@[j] != x,
        decreases s.len() - k,
    {
        k += 1;
    }
    proof {
        lemma_span_is(s@, not_char(x), k as int);
    }
    k
}

// ---------------------------------------------------------------------------
// Trimming
// ---------------------------------------------------------------------------

/// `s` without its leading whitespace.
pub open spec fn trimmed_start(s: Seq<char>) -> Seq<char> {
    s.skip(span(s, space()))
}

/// `s` without its trailing whitespace.
pub open spec fn trimmed_end(s: Seq<char>) -> Seq<char> {
    s.take(s.len() - back_span(s, space()))
}

/// `s` without leading and trailing whitespace.
pub open spec fn trimmed(s: Seq<char>) -> Seq<char> {
    trimmed_end(trimmed_start(s))
}

/// `s` without the copies of `x` it starts with.
pub open spec fn without_leading(s: Seq<char>, x: char) -> Seq<char> {
    s.skip(span(s, is_char(x)))
}

/// The part of `s` behind its leading whitespace.
pub fn trim_start<'a>(s: &'a [char]) -> (out: &'a [char])
    ensures
        out@ == trimmed_start(s@),
{
    let a = leading_space(s);
    proof {
        lemma_span(s@, space());
    }
    slice_subrange(s, a, s.len())
}

/// The part of `s` in front of its trailing whitespace.
pub fn trim_end<'a>(s: &'a [char]) -> (out: &'a [char])
    ensures
        out@ == trimmed_end(s@),
{
    let b = trailing_space(s);
    proof {
        lemma_back_span(s@, space());
    }
    slice_subrange(s, 0, s.len() - b)
}

/// The part of `s` between its leading and its trailing whitespace.
pub fn trim<'a>(s: &'a [char]) -> (out: &'a [char])
    ensures
        out@ == trimmed(s@),
{
    trim_end(trim_start(s))
}

/// The part of `s` behind the copies of `x` it starts with.
pub fn strip_leading<'a>(s: &'a [char], x: char) -> (out: &'a [char])
    ensures
        out@ == without_leading(s@, x),
{
    let a = leading_char(s, x);
    proof {
        lemma_span(s@, is_char(x));
    }
    slice_subrange(s, a, s.len())
}

// ---------------------------------------------------------------------------
// Whitespace-delimited tokens
// ---------------------------------------------------------------------------

/// The maximal runs of non-whitespace characters of `s`, in order.
pub open spec fn tokens(s: Seq<char>) -> Seq<Seq<char>>
    decreases s.len(),
{
    let a = span(s, space());
    let b = span(s.skip(a), non_space());
    if b == 0 {
        seq![]
    } else {
        proof {
            lemma_span(s, space());
            lemma_span(s.skip(a), non_space());
        }
        seq![s.subrange(a, a + b)] + tokens(s.skip(a + b))
    }
}

/// Splits `s` into its tokens.
pub fn split_tokens(s: &[char]) -> (out: Vec<Vec<char>>)
    ensures
        views(out@) == tokens(s@),
{
    let mut out: Vec<Vec<char>> = Vec::new();
    let mut pos: usize = 0;
    proof {
        assert(s@.skip(0) == s@);
        assert(views(out@) + tokens(s@) == tokens(s@));
    }
    loop
        invariant
            pos <= s.len(),
            views(out@) + tokens(s@.skip(pos as int)) == tokens(s@),
        ensures
            views(out@) == tokens(s@),
        decreases s.len() - pos,
    {
        let rest = slice_subrange(s, pos, s.len());
        let a = leading_space(rest);
        proof {
            lemma_span(rest@, space());
        }
        let tail = slice_subrange(rest, a, rest.len());
        let b = leading_non_space(tail);
        proof {
            lemma_span(tail@, non_space());
        }
        if b == 0 {
            break ;
        }
        let token = vstd::slice::slice_to_vec(slice_subrange(tail, 0, b));
        proof {
            let ghost before = views(out@);
            assert(rest@ == s@.skip(pos as int));
            assert(tail@ == rest@.skip(a as int));
            assert(token@ == rest@.subrange(a as int, a + b));
            assert(rest@.skip(a + b) == s@.skip(pos + a + b));
            assert(views(out@.push(token)) == before + seq![token@]);
            assert(before + seq![token@] + tokens(s@.skip(pos + a + b)) == before + (seq![
                token@,
            ] + tokens(s@.skip(pos + a + b))));
        }
        out.push(token);
        pos = pos + a + b;
    }
    out
}


// ---------------------------------------------------------------------------
// Lines
// ---------------------------------------------------------------------------

/// `l` without one trailing carriage return, if it has one.
pub open spec fn without_cr(l: Seq<char>) -> Seq<char> {
    if l.len() > 0 && l.last() == '\r' {
        l.drop_last()
    } else {
        l
    }
}

/// The lines of `s`. A line ends at a line feed, or at a carriage return
/// directly followed by a line feed; the terminator is not part of the line.
/// The last line needs no terminator, and a terminator at the very end of `s`
/// starts no further line.
pub open spec fn lines(s: Seq<char>) -> Seq<Seq<char>>
    decreases s.len(),
{
    if s.len() == 0 {
        seq![]
    } else {
        let n = span(s, not_char('\n'));
        if n >= s.len() {
            seq![s]
        } else {
            proof {
                lemma_span(s, not_char('\n'));
            }
            seq![without_cr(s.take(n))] + lines(s.skip(n + 1))
        }
    }
}

/// Splits `s` into its lines.
pub fn split_lines(s: &[char]) -> (out: Vec<Vec<char>>)
    ensures
        views(out@) == lines(s@),
{
    let mut out: Vec<Vec<char>> = Vec::new();
    let mut pos: usize = 0;
    proof {
        assert(s@.skip(0) == s@);
        assert(views(out@) + lines(s@) == lines(s@));
    }
    while pos < s.len()
        invariant
            pos <= s.len(),
            views(out@) + lines(s@.skip(pos as int)) == lines(s@),
        decreases s.len() - pos,
    {
        let rest = slice_subrange(s, pos, s.len());
        let n = leading_not_char(rest, '\n');
        proof {
            lemma_span(rest@, not_char('\n'));
        }
        let ghost before = views(out@);
        if n >= rest.len() {
            let line = vstd::slice::slice_to_vec(rest);
            proof {
                assert(views(out@.push(line)) == before + seq![line@]);
                assert(lines(s@.skip(s.len() as int)) == Seq::<Seq<char>>::empty());
                assert(before + seq![line@] + Seq::<Seq<char>>::empty() == before + seq![line@]);
            }
            out.push(line);
            pos = s.len();
        } else {
            let end = if n > 0 && rest[n - 1] == '\r' {
                n - 1
            } else {
                n
            };
            let line = vstd::slice::slice_to_vec(slice_subrange(rest, 0, end));
            proof {
                assert(line@ == without_cr(rest@.take(n as int)));
                assert(rest@.skip(n + 1) == s@.skip(pos + n + 1));
                assert(views(out@.push(line)) == before + seq![line@]);
                assert(before + seq![line@] + lines(s@.skip(pos + n + 1)) == before + (seq![
                    line@,
                ] + lines(s@.skip(pos + n + 1))));
            }
            out.push(line);
            pos = pos + n + 1;
        }
    }
    proof {
        assert(views(out@) + Seq::<Seq<char>>::empty() == views(out@));
    }
    out
}

/// `rows` written one per line: joined by single line feeds, with none at the
/// end.
pub open spec fn joined(rows: Seq<Seq<char>>) -> Seq<char>
    decreases rows.len(),
{
    if rows.len() == 0 {
        seq![]
    } else if rows.len() == 1 {
        rows[0]
    } else {
        joined(rows.drop_last()) + seq!['\n'] + rows.last()
    }
}

/// Writes `rows` one per line.
pub fn join_rows(rows: &Vec<Vec<char>>) -> (out: Vec<char>)
    ensures
        out@ == joined(views(rows@)),
{
    let mut out: Vec<char> = Vec::new();
    let mut i: usize = 0;
    while i < rows.len()
        invariant
            i <= rows.len(),
            out@ == joined(views(rows@).take(i as int)),
        decreases rows.len() - i,
    {
        proof {
            let next = views(rows@).take(i + 1);
            assert(next.drop_last() == views(rows@).take(i as int));
            assert(next.last() == rows@[i as int]@);
        }
        if i > 0 {
            out.push('\n');
        }
        push_all(&mut out, rows[i].as_slice());
        i += 1;
    }
    proof {
        assert(views(rows@).take(rows.len() as int) == views(rows@));
    }
    out
}

// ---------------------------------------------------------------------------
// Searching
// ---------------------------------------------------------------------------

/// Whether `pat` stands in `s` at position `i`.
pub open spec fn occurs_at(s: Seq<char>, pat: Seq<char>, i: int) -> bool {
    0 <= i && i + pat.len() <= s.len() && s.subrange(i, i + pat.len()) == pat
}

/// Whether `s` begins with `pat`.
pub open spec fn starts_with(s: Seq<char>, pat: Seq<char>) -> bool {
    occurs_at(s, pat, 0)
}

/// The first position at or after `i` where `pat` stands in `s`.
pub open spec fn find_from(s: Seq<char>, pat: Seq<char>, i: int) -> Option<int>
    decreases s.len() + 1 - i,
{
    if i < 0 || i + pat.len() > s.len() {
        None
    } else if occurs_at(s, pat, i) {
        Some(i)
    } else {
        find_from(s, pat, i + 1)
    }
}

/// The first position where `pat` stands in `s`.
pub open spec fn find_first(s: Seq<char>, pat: Seq<char>) -> Option<int> {
    find_from(s, pat, 0)
}

/// Whether `pat` stands somewhere in `s`.
pub open spec fn contains(s: Seq<char>, pat: Seq<char>) -> bool {
    exists|i: int| occurs_at(s, pat, i)
}

/// `find_from` returns the least occurrence at or after `i`, and `None` only
/// where there is none.
pub proof fn lemma_find_from(s: Seq<char>, pat: Seq<char>, i: int)
    requires
        0 <= i,
    ensures
        match find_from(s, pat, i) {
            Some(k) => i <= k && occurs_at(s, pat, k) && forall|j: int|
                i <= j < k ==> !occurs_at(s, pat, j),
            None => forall|j: int| i <= j ==> !occurs_at(s, pat, j),
        },
    decreases s.len() + 1 - i,
{
    if i + pat.len() > s.len() {
    } else if occurs_at(s, pat, i) {
    } else {
        lemma_find_from(s, pat, i + 1);
    }
}

/// `find_first` returns the least occurrence, and one wherever there is any.
pub proof fn lemma_find_first(s: Seq<char>, pat: Seq<char>)
    ensures
        find_first(s, pat) is Some <==> contains(s, pat),
        find_first(s, pat) matches Some(k) ==> occurs_at(s, pat, k) && forall|j: int|
            0 <= j < k ==> !occurs_at(s, pat, j),
{
    lemma_find_from(s, pat, 0);
}

/// Tells whether `pat` stands in `s` at position `i`.
pub fn matches_at(s: &[char], pat: &[char], i: usize) -> (b: bool)
    ensures
        b == occurs_at(s@, pat@, i as int),
{
    if pat.len() > s.len() || i > s.len() - pat.len() {
        return false;
    }
    let mut k: usize = 0;
    while k < pat.len()
        invariant
            k <= pat.len(),
            i + pat.len() <= s.len(),
            forall|j: int| 0 <= j < k ==> s@[i + j] == pat@[j],
        decreases pat.len() - k,
    {
        if s[i + k] != pat[k] {
            proof {
                assert(s@.subrange(i as int, i + pat.len())[k as int] == s@[i + k]);
            }
            return false;
        }
        k += 1;
    }
    proof {
        assert(s@.subrange(i as int, i + pat.len()) =~= pat@);
    }
    true
}

/// Tells whether `s` begins with `pat`.
pub fn begins_with(s: &[char], pat: &[char]) -> (b: bool)
    ensures
        b == starts_with(s@, pat@),
{
    matches_at(s, pat, 0)
}

/// Finds the first position where `pat` stands in `s`.
pub fn find(s: &[char], pat: &[char]) -> (r: Option<usize>)
    ensures
        match r {
            Some(k) => find_first(s@, pat@) == Some(k as int),
            None => find_first(s@, pat@) is None,
        },
{
    if pat.len() > s.len() {
        return None;
    }
    let last = s.len() - pat.len();
    let mut i: usize = 0;
    loop
        invariant
            i <= last,
            last + pat.len() == s.len(),
            find_first(s@, pat@) == find_from(s@, pat@, i as int),
        decreases last - i,
    {
        if matches_at(s, pat, i) {
            return Some(i);
        }
        if i == last {
            proof {
                assert(find_from(s@, pat@, i + 1) is None);
            }
            return None;
        }
        i += 1;
    }
}

/// Tells whether `pat` stands somewhere in `s`.
pub fn includes(s: &[char], pat: &[char]) -> (b: bool)
    ensures
        b == contains(s@, pat@),
{
    proof {
        lemma_find_first(s@, pat@);
    }
    find(s, pat).is_some()
}

/// Tells whether `x` occurs in `s`.
pub fn has_char(s: &[char], x: char) -> (b: bool)
    ensures
        b == s@.contains(x),
{
    let k = leading_not_char(s, x);
    proof {
        lemma_span(s@, not_char(x));
    }
    k < s.len()
}

/// Tells whether `a` and `b` hold the same characters.
pub fn same(a: &[char], b: &[char]) -> (r: bool)
    ensures
        r == (a@ == b@),
{
    proof {
        assert(a@.subrange(0, a@.len() as int) == a@);
    }
    a.len() == b.len() && matches_at(a, b, 0)
}


// ---------------------------------------------------------------------------
// Prefixes and truncation
// ---------------------------------------------------------------------------

/// The first `n` characters of `s`, or all of `s` if it is shorter.
pub open spec fn prefix(s: Seq<char>, n: nat) -> Seq<char> {
    if n < s.len() {
        s.take(n as int)
    } else {
        s
    }
}

/// `s` without the copies of `pat` it starts with.
pub open spec fn without_prefixes(s: Seq<char>, pat: Seq<char>) -> Seq<char>
    decreases s.len(),
{
    if pat.len() > 0 && starts_with(s, pat) {
        without_prefixes(s.skip(pat.len() as int), pat)
    } else {
        s
    }
}

/// The three dots that end a shortened message.
pub open spec fn ellipsis() -> Seq<char> {
    seq!['.', '.', '.']
}

/// `msg` cut to at most `max` characters. A message that fits is kept as it
/// is; a longer one keeps its first `max - 3` characters (none where `max` is
/// below 3) and ends in three dots.
pub open spec fn truncated(msg: Seq<char>, max: nat) -> Seq<char> {
    if msg.len() <= max {
        msg
    } else {
        prefix(msg, if max >= 3 { (max - 3) as nat } else { 0 }) + ellipsis()
    }
}

/// A shortened message is within the limit, for every limit that leaves room
/// for the dots.
pub proof fn lemma_truncated_len(msg: Seq<char>, max: nat)
    requires
        max >= 3,
    ensures
        truncated(msg, max).len() <= max,
{
}

/// The first `n` characters of `s`, or all of it if it is shorter.
pub fn take_prefix<'a>(s: &'a [char], n: usize) -> (out: &'a [char])
    ensures
        out@ == prefix(s@, n as nat),
{
    if n < s.len() {
        slice_subrange(s, 0, n)
    } else {
        proof {
            assert(s@.subrange(0, s@.len() as int) == s@);
        }
        slice_subrange(s, 0, s.len())
    }
}

/// The part of `s` behind the copies of `pat` it starts with.
pub fn strip_prefixes<'a>(s: &'a [char], pat: &[char]) -> (out: &'a [char])
    ensures
        out@ == without_prefixes(s@, pat@),
{
    if pat.len() == 0 {
        return s;
    }
    let mut at: usize = 0;
    proof {
        assert(s@.skip(0) == s@);
    }
    while matches_at(s, pat, at)
        invariant
            at <= s.len(),
            pat.len() > 0,
            without_prefixes(s@, pat@) == without_prefixes(s@.skip(at as int), pat@),
        decreases s.len() - at,
    {
        proof {
            let rest = s@.skip(at as int);
            assert(rest.subrange(0, pat@.len() as int) == s@.subrange(
                at as int,
                at + pat@.len(),
            ));
            assert(rest.skip(pat@.len() as int) == s@.skip(at + pat@.len()));
        }
        at = at + pat.len();
    }
    proof {
        let rest = s@.skip(at as int);
        if at + pat@.len() <= s@.len() {
            assert(rest.subrange(0, pat@.len() as int) == s@.subrange(
                at as int,
                at + pat@.len(),
            ));
        }
    }
    slice_subrange(s, at, s.len())
}

/// Cuts `msg` to at most `max` characters, ending it in three dots where
/// something was cut off.
pub fn truncate(msg: &[char], max: usize) -> (out: Vec<char>)
    ensures
        out@ == truncated(msg@, max as nat),
{
    if msg.len() <= max {
        vstd::slice::slice_to_vec(msg)
    } else {
        let keep = if max >= 3 {
            max - 3
        } else {
            0
        };
        let mut out = vstd::slice::slice_to_vec(take_prefix(msg, keep));
        out.push('.');
        out.push('.');
        out.push('.');
        proof {
            assert(out@ == prefix(msg@, keep as nat) + ellipsis());
        }
        out
    }
}

// ---------------------------------------------------------------------------
// Rows of output
// ---------------------------------------------------------------------------

/// The first `n` rows, or all of them if there are fewer.
pub open spec fn first_n(rows: Seq<Seq<char>>, n: nat) -> Seq<Seq<char>> {
    if n < rows.len() {
        rows.take(n as int)
    } else {
        rows
    }
}

/// Keeping the first `n` rows of a list that grows by one row: the row is
/// kept exactly where fewer than `n` were kept before.
pub proof fn lemma_first_n_push(rows: Seq<Seq<char>>, row: Seq<char>, n: nat)
    ensures
        first_n(rows.push(row), n) == if first_n(rows, n).len() < n {
            first_n(rows, n).push(row)
        } else {
            first_n(rows, n)
        },
        first_n(rows, n).len() <= n,
{
    if n < rows.len() {
        assert(rows.push(row).take(n as int) == rows.take(n as int));
    } else if n == rows.len() {
        assert(rows.push(row).take(n as int) == rows);
    }
}

/// The text that shows `rows`: one row per line, or `empty` where there is
/// no row.
pub open spec fn rendered(rows: Seq<Seq<char>>, empty: Seq<char>) -> Seq<char> {
    if rows.len() == 0 {
        empty
    } else {
        joined(rows)
    }
}

/// Writes `rows` one per line, or `empty` where there is no row.
pub fn render(rows: &Vec<Vec<char>>, empty: &str) -> (out: String)
    ensures
        out@ == rendered(views(rows@), empty@),
{
    if rows.len() == 0 {
        string_of(chars_of(empty).as_slice())
    } else {
        string_of(join_rows(rows).as_slice())
    }
}


// ---------------------------------------------------------------------------
// Letter case
// ---------------------------------------------------------------------------

/// `c` in lower case, if it is an ASCII capital; any other character as it
/// is.
pub open spec fn lower(c: char) -> char {
    if 'A' <= c <= 'Z' {
        ((c as u8) + 32) as char
    } else {
        c
    }
}

/// `s` with its ASCII capitals in lower case.
pub open spec fn lowered(s: Seq<char>) -> Seq<char> {
    Seq::new(s.len(), |i: int| lower(s[i]))
}

/// Puts an ASCII capital into lower case.
#[verifier::when_used_as_spec(lower)]
pub fn lower_char(c: char) -> (r: char)
    ensures
        r == lower(c),
{
    if 'A' <= c && c <= 'Z' {
        ((c as u8) + 32) as char
    } else {
        c
    }
}

/// Puts the ASCII capitals of `s` into lower case.
pub fn to_lower(s: &[char]) -> (out: Vec<char>)
    ensures
        out@ == lowered(s@),
{
    let mut out: Vec<char> = Vec::new();
    let mut i: usize = 0;
    while i < s.len()
        invariant
            i <= s.len(),
            out@ == lowered(s@).take(i as int),
        decreases s.len() - i,
    {
        out.push(lower_char(s[i]));
        i += 1;
    }
    out
}


// ---------------------------------------------------------------------------
// Size in bytes
// ---------------------------------------------------------------------------

/// Number of bytes that `s` takes in UTF-8.
pub open spec fn byte_len(s: Seq<char>) -> nat {
    vstd::utf8::encode_utf8(s).len()
}

/// The size of a concatenation is the sum of the sizes.
pub proof fn lemma_byte_len_add(a: Seq<char>, b: Seq<char>)
    ensures
        byte_len(a + b) == byte_len(a) + byte_len(b),
    decreases a.len(),
{
    if a.len() == 0 {
        assert(a + b == b);
    } else {
        assert((a + b).drop_first() == a.drop_first() + b);
        assert((a + b)[0] == a[0]);
        lemma_byte_len_add(a.drop_first(), b);
    }
}

/// A line feed takes one byte.
pub proof fn lemma_byte_len_newline()
    ensures
        byte_len(seq!['\n']) == 1,
{
    let s = seq!['\n'];
    assert(s.drop_first() == Seq::<char>::empty());
    reveal_with_fuel(vstd::utf8::encode_utf8, 2);
    assert(vstd::utf8::encode_utf8(s) == vstd::utf8::encode_scalar('\n' as u32)
        + vstd::utf8::encode_utf8(s.drop_first()));
}

/// A part of a text takes no more bytes than the text.
pub proof fn lemma_byte_len_subrange(s: Seq<char>, i: int, j: int)
    requires
        0 <= i <= j <= s.len(),
    ensures
        byte_len(s.subrange(i, j)) <= byte_len(s),
{
    assert(s == s.take(i) + s.subrange(i, j) + s.skip(j));
    lemma_byte_len_add(s.take(i) + s.subrange(i, j), s.skip(j));
    lemma_byte_len_add(s.take(i), s.subrange(i, j));
}

/// Writing rows one per line, first row first.
pub proof fn lemma_joined_front(row: Seq<char>, rest: Seq<Seq<char>>)
    ensures
        joined(seq![row] + rest) == if rest.len() == 0 {
            row
        } else {
            row + seq!['\n'] + joined(rest)
        },
    decreases rest.len(),
{
    let all = seq![row] + rest;
    if rest.len() == 0 {
        assert(all[0] == row);
    } else {
        assert(all.drop_last() == seq![row] + rest.drop_last());
        assert(all.last() == rest.last());
        lemma_joined_front(row, rest.drop_last());
        if rest.len() == 1 {
            assert(rest[0] == rest.last());
            assert(joined(rest) == rest.last());
        } else {
            assert(row + seq!['\n'] + joined(rest.drop_last()) + seq!['\n'] + rest.last() == row
                + seq!['\n'] + (joined(rest.drop_last()) + seq!['\n'] + rest.last()));
        }
    }
}

/// The lines of a text, written one per line again, take no more bytes than
/// the text: only line terminators are lost.
pub proof fn lemma_lines_fit(s: Seq<char>)
    ensures
        byte_len(joined(lines(s))) <= byte_len(s),
    decreases s.len(),
{
    if s.len() == 0 {
    } else {
        let n = span(s, not_char('\n'));
        lemma_span(s, not_char('\n'));
        if n >= s.len() {
            assert(joined(seq![s]) == s);
        } else {
            let head = s.take(n);
            let line = without_cr(head);
            let rest = s.skip(n + 1);
            lemma_lines_fit(rest);
            lemma_joined_front(line, lines(rest));
            assert(s == head + seq!['\n'] + rest);
            lemma_byte_len_add(head + seq!['\n'], rest);
            lemma_byte_len_add(head, seq!['\n']);
            lemma_byte_len_newline();
            if line != head {
                lemma_byte_len_subrange(head, 0, head.len() - 1);
            }
            if lines(rest).len() > 0 {
                lemma_byte_len_add(line + seq!['\n'], joined(lines(rest)));
                lemma_byte_len_add(line, seq!['\n']);
            }
        }
    }
}

/// Rows that are each no larger than the row in the same place of another
/// list are together no larger than that list, both written one per line.
pub proof fn lemma_joined_fit(small: Seq<Seq<char>>, large: Seq<Seq<char>>)
    requires
        small.len() == large.len(),
        forall|i: int| 0 <= i < small.len() ==> byte_len(#[trigger] small[i]) <= byte_len(large[i]),
    ensures
        byte_len(joined(small)) <= byte_len(joined(large)),
    decreases small.len(),
{
    if small.len() >= 2 {
        lemma_joined_fit(small.drop_last(), large.drop_last());
        lemma_byte_len_add(joined(small.drop_last()) + seq!['\n'], small.last());
        lemma_byte_len_add(joined(small.drop_last()), seq!['\n']);
        lemma_byte_len_add(joined(large.drop_last()) + seq!['\n'], large.last());
        lemma_byte_len_add(joined(large.drop_last()), seq!['\n']);
    }
}


// ---------------------------------------------------------------------------
// Words on one line
// ---------------------------------------------------------------------------

/// `words` joined by single spaces.
pub open spec fn spaced(words: Seq<Seq<char>>) -> Seq<char>
    decreases words.len(),
{
    if words.len() == 0 {
        seq![]
    } else if words.len() == 1 {
        words[0]
    } else {
        spaced(words.drop_last()) + seq![' '] + words.last()
    }
}

/// The views of a sequence of strings, element by element.
pub open spec fn texts(v: Seq<String>) -> Seq<Seq<char>> {
    Seq::new(v.len(), |i: int| v[i]@)
}

/// Joins `words` by single spaces.
pub fn join_words(words: &[String]) -> (out: Vec<char>)
    ensures
        out@ == spaced(texts(words@)),
{
    let mut out: Vec<char> = Vec::new();
    let mut i: usize = 0;
    while i < words.len()
        invariant
            i <= words.len(),
            out@ == spaced(texts(words@).take(i as int)),
        decreases words.len() - i,
    {
        proof {
            let next = texts(words@).take(i + 1);
            assert(next.drop_last() == texts(words@).take(i as int));
            assert(next.last() == words@[i as int]@);
        }
        if i > 0 {
            out.push(' ');
        }
        push_all(&mut out, chars_of(words[i].as_str()).as_slice());
        i += 1;
    }
    proof {
        assert(texts(words@).take(words.len() as int) == texts(words@));
    }
    out
}

/// Whether two strings hold the same characters.
pub fn same_text(a: &str, b: &str) -> (r: bool)
    ensures
        r == (a@ == b@),
{
    same(chars_of(a).as_slice(), chars_of(b).as_slice())
}


// ---------------------------------------------------------------------------
// Laws of tokens
// ---------------------------------------------------------------------------

/// Whether `t` is a word: not empty, and free of whitespace.
pub open spec fn is_word(t: Seq<char>) -> bool {
    t.len() > 0 && forall|j: int| 0 <= j < t.len() ==> !is_space(#[trigger] t[j])
}

/// Every token is a word, and is made of characters of the text.
pub proof fn lemma_tokens_are_words(s: Seq<char>)
    ensures
        forall|i: int| 0 <= i < tokens(s).len() ==> is_word(#[trigger] tokens(s)[i]),
        forall|i: int, c: char|
            0 <= i < tokens(s).len() && (#[trigger] tokens(s)[i]).contains(c) ==> #[trigger] s.contains(c),
    decreases s.len(),
{
    let a = span(s, space());
    lemma_span(s, space());
    let b = span(s.skip(a), non_space());
    lemma_span(s.skip(a), non_space());
    if b > 0 {
        let first = s.subrange(a, a + b);
        let rest = s.skip(a + b);
        lemma_tokens_are_words(rest);
        assert forall|j: int| 0 <= j < first.len() implies !is_space(#[trigger] first[j]) by {
            assert(first[j] == s.skip(a)[j]);
        }
        assert forall|i: int| 0 <= i < tokens(s).len() implies is_word(#[trigger] tokens(s)[i]) by {
            if i > 0 {
                assert(tokens(s)[i] == tokens(rest)[i - 1]);
            }
        }
        assert forall|i: int, c: char|
            0 <= i < tokens(s).len() && (#[trigger] tokens(s)[i]).contains(
                c,
            ) implies #[trigger] s.contains(c) by {
            if i > 0 {
                assert(tokens(s)[i] == tokens(rest)[i - 1]);
                assert(rest.contains(c));
                let k = choose|k: int| 0 <= k < rest.len() && rest[k] == c;
                assert(s[a + b + k] == c);
            } else {
                let k = choose|k: int| 0 <= k < first.len() && first[k] == c;
                assert(s[a + k] == c);
            }
        }
    }
}

/// A word is its own single token.
pub proof fn lemma_tokens_of_word(t: Seq<char>)
    requires
        is_word(t),
    ensures
        tokens(t) == seq![t],
{
    lemma_span_is(t, space(), 0);
    assert(t.skip(0) == t);
    lemma_span_is(t, non_space(), t.len() as int);
    assert(t.subrange(0, t.len() as int) == t);
    let rest = t.skip(t.len() as int);
    assert(rest.len() == 0);
    lemma_span_is(rest, space(), 0);
    assert(rest.skip(0) == rest);
    lemma_span_is(rest, non_space(), 0);
    assert(tokens(rest) == Seq::<Seq<char>>::empty());
    assert(seq![t] + Seq::<Seq<char>>::empty() == seq![t]);
}

/// Text without a word in it has no token.
pub proof fn lemma_tokens_of_blank(s: Seq<char>)
    requires
        forall|j: int| 0 <= j < s.len() ==> is_space(#[trigger] s[j]),
    ensures
        tokens(s) == Seq::<Seq<char>>::empty(),
{
    lemma_span_is(s, space(), s.len() as int);
    lemma_span_is(s.skip(s.len() as int), non_space(), 0);
}

/// The tokens of two texts with one whitespace character between them are
/// the tokens of the one followed by the tokens of the other.
pub proof fn lemma_tokens_apart(a: Seq<char>, gap: char, b: Seq<char>)
    requires
        is_space(gap),
    ensures
        tokens(a + seq![gap] + b) == tokens(a) + tokens(b),
    decreases a.len(),
{
    let s = a + seq![gap] + b;
    let a0 = span(a, space());
    lemma_span(a, space());
    if a0 == a.len() {
        lemma_tokens_of_blank(a);
        let b0 = span(b, space());
        lemma_span(b, space());
        let k = a.len() + 1 + b0;
        assert forall|j: int| 0 <= j < k implies is_space(#[trigger] s[j]) by {
            if j < a.len() {
                assert(s[j] == a[j]);
            } else if j > a.len() {
                assert(s[j] == b[j - a.len() - 1]);
            } else {
                assert(s[j] == gap);
            }
        }
        if k < s.len() {
            assert(s[k] == b[b0]);
        }
        lemma_span_is(s, space(), k);
        assert(s.skip(k) == b.skip(b0));
        let w = span(b.skip(b0), non_space());
        lemma_span(b.skip(b0), non_space());
        if w > 0 {
            assert(s.subrange(k, k + w) == b.subrange(b0, b0 + w));
            assert(s.skip(k + w) == b.skip(b0 + w));
        }
        assert(tokens(s) == tokens(b));
        assert(Seq::<Seq<char>>::empty() + tokens(b) == tokens(b));
    } else {
        assert forall|j: int| 0 <= j < a0 implies is_space(#[trigger] s[j]) by {
            assert(s[j] == a[j]);
        }
        assert(s[a0] == a[a0]);
        lemma_span_is(s, space(), a0);
        let w = span(a.skip(a0), non_space());
        lemma_span(a.skip(a0), non_space());
        assert(!is_space(a.skip(a0)[0]));
        assert(w > 0);
        let tail = s.skip(a0);
        assert forall|j: int| 0 <= j < w implies !is_space(#[trigger] tail[j]) by {
            assert(tail[j] == a.skip(a0)[j]);
        }
        if a0 + w < a.len() {
            assert(tail[w] == a.skip(a0)[w]);
        } else {
            assert(tail[w] == gap);
        }
        lemma_span_is(tail, non_space(), w);
        assert(s.subrange(a0, a0 + w) == a.subrange(a0, a0 + w));
        assert(s.skip(a0 + w) == a.skip(a0 + w) + seq![gap] + b);
        lemma_tokens_apart(a.skip(a0 + w), gap, b);
        assert(seq![a.subrange(a0, a0 + w)] + (tokens(a.skip(a0 + w)) + tokens(b)) == seq![
            a.subrange(a0, a0 + w),
        ] + tokens(a.skip(a0 + w)) + tokens(b));
    }
}


/// The tokens of two texts with a space between them are the tokens of the
/// one followed by the tokens of the other.
pub proof fn lemma_tokens_spaced(a: Seq<char>, b: Seq<char>)
    ensures
        tokens(a + seq![' '] + b) == tokens(a) + tokens(b),
{
    lemma_tokens_apart(a, ' ', b);
}

/// All tokens of `rows`, row by row.
pub open spec fn tokens_of_rows(rows: Seq<Seq<char>>) -> Seq<Seq<char>>
    decreases rows.len(),
{
    if rows.len() == 0 {
        seq![]
    } else {
        tokens_of_rows(rows.drop_last()) + tokens(rows.last())
    }
}

/// The tokens of rows written one per line are the tokens of the rows.
pub proof fn lemma_tokens_of_joined(rows: Seq<Seq<char>>)
    ensures
        tokens(joined(rows)) == tokens_of_rows(rows),
    decreases rows.len(),
{
    if rows.len() == 0 {
        lemma_tokens_of_blank(joined(rows));
    } else if rows.len() == 1 {
        assert(rows.drop_last().len() == 0);
        assert(tokens_of_rows(rows.drop_last()) == Seq::<Seq<char>>::empty());
        assert(Seq::<Seq<char>>::empty() + tokens(rows.last()) == tokens(rows.last()));
    } else {
        lemma_tokens_of_joined(rows.drop_last());
        lemma_tokens_apart(joined(rows.drop_last()), '\n', rows.last());
    }
}

/// Showing more rows of a list shows the same rows first.
pub proof fn lemma_first_n_grows(rows: Seq<Seq<char>>, n: nat, m: nat)
    requires
        n <= m,
    ensures
        first_n(rows, n).is_prefix_of(first_n(rows, m)),
{
    assert(first_n(rows, n) =~= first_n(rows, m).subrange(0, first_n(rows, n).len() as int));
}

/// A shortened row can stand on a line of its own where the row can.
pub proof fn lemma_truncated_is_row(msg: Seq<char>, max: nat)
    requires
        is_row(msg),
    ensures
        is_row(truncated(msg, max)),
{
    if msg.len() > max {
        let kept = prefix(msg, if max >= 3 { (max - 3) as nat } else { 0 });
        assert(kept == msg.subrange(0, kept.len() as int));
        lemma_part_lacks(msg, 0, kept.len() as int, '\n');
        assert(!ellipsis().contains('\n')) by {
            if ellipsis().contains('\n') {
                let k = choose|k: int| 0 <= k < ellipsis().len() && ellipsis()[k] == '\n';
            }
        }
        lemma_concat_lacks(kept, ellipsis(), '\n');
        assert((kept + ellipsis()).last() == '.');
    }
}

/// What is left of a text behind the copies of a pattern it starts with
/// holds no character that the text does not hold.
pub proof fn lemma_without_prefixes_lacks(s: Seq<char>, pat: Seq<char>, c: char)
    requires
        !s.contains(c),
    ensures
        !without_prefixes(s, pat).contains(c),
    decreases s.len(),
{
    if pat.len() > 0 && starts_with(s, pat) {
        lemma_part_lacks(s, pat.len() as int, s.len() as int, c);
        lemma_without_prefixes_lacks(s.skip(pat.len() as int), pat, c);
    }
}

// ---------------------------------------------------------------------------
// Laws of lines
// ---------------------------------------------------------------------------

/// Whether `row` can stand on a line of its own: it is not empty, holds no
/// line feed and does not end in a carriage return.
pub open spec fn is_row(row: Seq<char>) -> bool {
    row.len() > 0 && !row.contains('\n') && row.last() != '\r'
}

/// A part of a text holds no character that the text does not hold.
pub proof fn lemma_part_lacks(s: Seq<char>, i: int, j: int, c: char)
    requires
        0 <= i <= j <= s.len(),
        !s.contains(c),
    ensures
        !s.subrange(i, j).contains(c),
{
    let part = s.subrange(i, j);
    if part.contains(c) {
        let k = choose|k: int| 0 <= k < part.len() && part[k] == c;
        assert(s[i + k] == c);
    }
}

/// Two texts, one behind the other, hold no character that neither holds.
pub proof fn lemma_concat_lacks(a: Seq<char>, b: Seq<char>, c: char)
    requires
        !a.contains(c),
        !b.contains(c),
    ensures
        !(a + b).contains(c),
{
    let both = a + b;
    if both.contains(c) {
        let k = choose|k: int| 0 <= k < both.len() && both[k] == c;
        if k < a.len() {
            assert(a[k] == c);
        } else {
            assert(b[k - a.len()] == c);
        }
    }
}

/// A trimmed text is a part of the text, and neither starts nor ends with
/// whitespace.
pub proof fn lemma_trimmed(s: Seq<char>)
    ensures
        trimmed(s) == s.subrange(span(s, space()), span(s, space()) + trimmed(s).len()),
        0 <= span(s, space()) <= span(s, space()) + trimmed(s).len() <= s.len(),
        trimmed(s).len() > 0 ==> !is_space(trimmed(s)[0]) && !is_space(trimmed(s).last()),
{
    let a = span(s, space());
    lemma_span(s, space());
    let t = s.skip(a);
    lemma_back_span(t, space());
    if t.len() > 0 {
        assert(t[0] == s[a]);
    }
}

/// No line holds a line feed.
pub proof fn lemma_lines_lack_newlines(s: Seq<char>)
    ensures
        forall|i: int| 0 <= i < lines(s).len() ==> !(#[trigger] lines(s)[i]).contains('\n'),
    decreases s.len(),
{
    if s.len() > 0 {
        let n = span(s, not_char('\n'));
        lemma_span(s, not_char('\n'));
        if n < s.len() {
            let head = s.take(n);
            let rest = s.skip(n + 1);
            lemma_lines_lack_newlines(rest);
            if head.contains('\n') {
                let k = choose|k: int| 0 <= k < head.len() && head[k] == '\n';
                assert(s[k] == '\n');
            }
            if without_cr(head) != head {
                lemma_part_lacks(head, 0, head.len() - 1, '\n');
            }
            assert forall|i: int| 0 <= i < lines(s).len() implies !(#[trigger] lines(s)[i]).contains(
                '\n',
            ) by {
                if i > 0 {
                    assert(lines(s)[i] == lines(rest)[i - 1]);
                }
            }
        } else {
            if s.contains('\n') {
                let k = choose|k: int| 0 <= k < s.len() && s[k] == '\n';
                assert(not_char('\n')(s[k]));
            }
        }
    }
}

/// Rows written one per line are the lines of what was written.
pub proof fn lemma_lines_of_joined(rows: Seq<Seq<char>>)
    requires
        rows.len() > 0,
        forall|r: int| 0 <= r < rows.len() ==> is_row(#[trigger] rows[r]),
    ensures
        lines(joined(rows)) == rows,
    decreases rows.len(),
{
    let first = rows[0];
    let rest = rows.skip(1);
    assert(rows == seq![first] + rest);
    lemma_joined_front(first, rest);
    assert(is_row(first));
    assert forall|j: int| 0 <= j < first.len() implies not_char('\n')(#[trigger] first[j]) by {
        if first[j] == '\n' {
            assert(first.contains('\n'));
        }
    }
    if rest.len() == 0 {
        lemma_span_is(first, not_char('\n'), first.len() as int);
        assert(rows == seq![first]);
    } else {
        assert forall|r: int| 0 <= r < rest.len() implies is_row(#[trigger] rest[r]) by {
            assert(rest[r] == rows[r + 1]);
        }
        lemma_lines_of_joined(rest);
        let text = first + seq!['\n'] + joined(rest);
        assert forall|j: int| 0 <= j < first.len() implies not_char('\n')(#[trigger] text[j]) by {
            assert(text[j] == first[j]);
        }
        assert(text[first.len() as int] == '\n');
        lemma_span_is(text, not_char('\n'), first.len() as int);
        assert(text.take(first.len() as int) == first);
        assert(text.skip(first.len() as int + 1) == joined(rest));
    }
}

} // verus!
