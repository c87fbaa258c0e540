//! Field classifiers: total predicates that recognise the shape of a token.
//!
//! None of them looks at what a token means: a token is "date-shaped" when it
//! has the length and the hyphen of a date, whatever its other characters.

use vstd::prelude::*;

verus! {

/// Whether every character of `s` satisfies `p`.
pub open spec fn all_chars(s: Seq<char>, p: spec_fn(char) -> bool) -> bool {
    forall|i: int| 0 <= i < s.len() ==> p(#[trigger] s[i])
}

/// A decimal digit.
pub open spec fn is_digit(c: char) -> bool {
    '0' <= c <= '9'
}

/// A lowercase hexadecimal digit.
pub open spec fn is_lower_hex(c: char) -> bool {
    is_digit(c) || 'a' <= c <= 'f'
}

/// A lowercase ASCII letter or a decimal digit.
pub open spec fn is_lower_alnum(c: char) -> bool {
    is_digit(c) || 'a' <= c <= 'z'
}

/// One of the symbols that open an entry of a history graph: `@`, the open
/// circle, the filled diamond and the filled circle.
pub open spec fn is_glyph(c: char) -> bool {
    c == '@' || c == '\u{25cb}' || c == '\u{25c6}' || c == '\u{25cf}'
}

/// One of the two vertical bars that continue a history graph.
pub open spec fn is_bar(c: char) -> bool {
    c == '\u{2502}' || c == '|'
}

/// Contains an `@` and a `.`.
pub open spec fn email_shaped(t: Seq<char>) -> bool {
    t.contains('@') && t.contains('.')
}

/// Ten characters with a hyphen as the fifth.
pub open spec fn date_shaped(t: Seq<char>) -> bool {
    t.len() == 10 && t[4] == '-'
}

/// Eight characters with a colon as the third.
pub open spec fn time_shaped(t: Seq<char>) -> bool {
    t.len() == 8 && t[2] == ':'
}

/// Eight lowercase hexadecimal digits.
pub open spec fn short_hex(t: Seq<char>) -> bool {
    t.len() == 8 && all_chars(t, |c: char| is_lower_hex(c))
}

/// Eight lowercase letters or digits.
pub open spec fn short_id(t: Seq<char>) -> bool {
    t.len() == 8 && all_chars(t, |c: char| is_lower_alnum(c))
}

/// One or more decimal digits and nothing else.
pub open spec fn numeric(t: Seq<char>) -> bool {
    t.len() > 0 && all_chars(t, |c: char| is_digit(c))
}

/// Tells whether `c` is a decimal digit.
#[verifier::when_used_as_spec(is_digit)]
pub fn is_digit_char(c: char) -> (b: bool)
    ensures
        b == is_digit(c),
{
    '0' <= c && c <= '9'
}

/// Tells whether `c` is a lowercase hexadecimal digit.
#[verifier::when_used_as_spec(is_lower_hex)]
pub fn is_lower_hex_char(c: char) -> (b: bool)
    ensures
        b == is_lower_hex(c),
{
    is_digit_char(c) || ('a' <= c && c <= 'f')
}

/// Tells whether `c` is a lowercase ASCII letter or a decimal digit.
#[verifier::when_used_as_spec(is_lower_alnum)]
pub fn is_lower_alnum_char(c: char) -> (b: bool)
    ensures
        b == is_lower_alnum(c),
{
    is_digit_char(c) || ('a' <= c && c <= 'z')
}

/// Tells whether `c` opens an entry of a history graph.
#[verifier::when_used_as_spec(is_glyph)]
pub fn is_glyph_char(c: char) -> (b: bool)
    ensures
        b == is_glyph(c),
{
    c == '@' || c == '\u{25cb}' || c == '\u{25c6}' || c == '\u{25cf}'
}

/// Tells whether `c` continues a history graph.
#[verifier::when_used_as_spec(is_bar)]
pub fn is_bar_char(c: char) -> (b: bool)
    ensures
        b == is_bar(c),
{
    c == '\u{2502}' || c == '|'
}

/// Tells whether `t` has the shape of an email address.
pub fn is_email_shaped(t: &[char]) -> (b: bool)
    ensures
        b == email_shaped(t@),
{
    crate::text::has_char(t, '@') && crate::text::has_char(t, '.')
}

/// Tells whether `t` has the shape of a date.
pub fn is_date_shaped(t: &[char]) -> (b: bool)
    ensures
        b == date_shaped(t@),
{
    t.len() == 10 && t[4] == '-'
}

/// Tells whether `t` has the shape of a time of day.
pub fn is_time_shaped(t: &[char]) -> (b: bool)
    ensures
        b == time_shaped(t@),
{
    t.len() == 8 && t[2] == ':'
}

/// Tells whether `t` is a short hexadecimal identifier.
pub fn is_short_hex(t: &[char]) -> (b: bool)
    ensures
        b == short_hex(t@),
{
    if t.len() != 8 {
        return false;
    }
    let mut i: usize = 0;
    while i < t.len()
        invariant
            i <= t.len(),
            forall|j: int| 0 <= j < i ==> is_lower_hex(#[trigger] t@[j]),
        decreases t.len() - i,
    {
        if !is_lower_hex_char(t[i]) {
            return false;
        }
        i += 1;
    }
    true
}

/// Tells whether `t` is a short identifier of letters and digits.
pub fn is_short_id(t: &[char]) -> (b: bool)
    ensures
        b == short_id(t@),
{
    if t.len() != 8 {
        return false;
    }
    let mut i: usize = 0;
    while i < t.len()
        invariant
            i <= t.len(),
            forall|j: int| 0 <= j < i ==> is_lower_alnum(#[trigger] t@[j]),
        decreases t.len() - i,
    {
        if !is_lower_alnum_char(t[i]) {
            return false;
        }
        i += 1;
    }
    true
}

/// A short hexadecimal identifier has none of the three shapes that are
/// skipped when looking for one.
pub proof fn lemma_short_hex_is_plain(t: Seq<char>)
    requires
        short_hex(t),
    ensures
        !email_shaped(t),
        !date_shaped(t),
        !time_shaped(t),
{
    if t.contains('@') {
        let i = choose|i: int| 0 <= i < t.len() && t[i] == '@';
        assert(is_lower_hex(t[i]));
    }
    assert(is_lower_hex(t[2]));
}

} // verus!
