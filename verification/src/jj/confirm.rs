//! Confirmations for commands that change the repository: on success their
//! output shrinks to one line, which may carry one value read from it.

use vstd::prelude::*;
use vstd::slice::slice_subrange;
use crate::classify::{is_short_id, short_id};
use crate::number::{digits_of, numeral, parse_decimal, push_decimal};
use crate::text::{
    begins_with, chars_of, contains, find, find_first, includes, lemma_find_from, lines,
    lowered, push_all, split_lines, split_tokens, starts_with, string_of, to_lower, tokens,
    views,
};

verus! {

// ---------------------------------------------------------------------------
// The id of a new change
// ---------------------------------------------------------------------------

/// The position of the first short identifier at or after `i`.
pub open spec fn first_short_id(words: Seq<Seq<char>>, i: int) -> Option<int>
    decreases words.len() - i,
{
    if i < 0 || i >= words.len() {
        None
    } else if short_id(words[i]) {
        Some(i)
    } else {
        first_short_id(words, i + 1)
    }
}

/// The id of the change that `output` reports: its first token of eight
/// lowercase letters or digits.
pub open spec fn change_id(output: Seq<char>) -> Option<Seq<char>> {
    match first_short_id(tokens(output), 0) {
        Some(k) => Some(tokens(output)[k]),
        None => None,
    }
}

fn change_id_of(output: &[char]) -> (out: Option<Vec<char>>)
    ensures
        match out {
            Some(id) => change_id(output@) == Some(id@),
            None => change_id(output@) is None,
        },
{
    let words = split_tokens(output);
    let mut i: usize = 0;
    while i < words.len()
        invariant
            i <= words.len(),
            views(words@) == tokens(output@),
            first_short_id(tokens(output@), 0) == first_short_id(tokens(output@), i as int),
        decreases words.len() - i,
    {
        proof {
            assert(tokens(output@)[i as int] == words@[i as int]@);
        }
        if is_short_id(words[i].as_slice()) {
            return Some(words[i].clone());
        }
        i += 1;
    }
    None
}

/// Reads the id of a new change out of the output of the command that made
/// it.
pub fn extract_change_id(output: &str) -> (out: Option<String>)
    ensures
        match out {
            Some(id) => change_id(output@) == Some(id@),
            None => change_id(output@) is None,
        },
{
    let text = chars_of(output);
    match change_id_of(text.as_slice()) {
        Some(id) => Some(string_of(id.as_slice())),
        None => None,
    }
}

// ---------------------------------------------------------------------------
// Counting lines
// ---------------------------------------------------------------------------

/// Number of lines that satisfy `p`.
pub open spec fn count_where(lines: Seq<Seq<char>>, p: spec_fn(Seq<char>) -> bool) -> nat
    decreases lines.len(),
{
    if lines.len() == 0 {
        0
    } else {
        count_where(lines.drop_last(), p) + if p(lines.last()) {
            1nat
        } else {
            0nat
        }
    }
}

/// Whether `line` holds `word`, whatever the case of its ASCII letters.
/// `word` is given in lower case.
pub open spec fn mentions(line: Seq<char>, word: Seq<char>) -> bool {
    contains(lowered(line), word)
}

fn speaks_of(line: &[char], word: &[char]) -> (b: bool)
    ensures
        b == mentions(line@, word@),
{
    let low = to_lower(line);
    includes(low.as_slice(), word)
}

/// The property of mentioning an absorbed change.
pub open spec fn absorbed_line() -> spec_fn(Seq<char>) -> bool {
    |line: Seq<char>| mentions(line, "absorbed"@)
}

/// Number of changes that `output` reports as absorbed: its lines that hold
/// "absorbed" in any case.
pub open spec fn absorbed_count(output: Seq<char>) -> nat {
    count_where(lines(output), absorbed_line())
}

/// Counts the changes that the output of `jj absorb` reports as absorbed.
pub fn count_absorbed_changes(output: &str) -> (n: usize)
    ensures
        n == absorbed_count(output@),
{
    let text = chars_of(output);
    let all = split_lines(text.as_slice());
    let word = chars_of("absorbed");
    let mut n: usize = 0;
    let mut i: usize = 0;
    proof {
        assert(views(all@).take(0) == Seq::<Seq<char>>::empty());
    }
    while i < all.len()
        invariant
            i <= all.len(),
            n <= i,
            word@ == "absorbed"@,
            n == count_where(views(all@).take(i as int), absorbed_line()),
        decreases all.len() - i,
    {
        proof {
            let next = views(all@).take(i + 1);
            assert(next.drop_last() == views(all@).take(i as int));
            assert(next.last() == all@[i as int]@);
        }
        if speaks_of(all[i].as_slice(), word.as_slice()) {
            n += 1;
        }
        i += 1;
    }
    proof {
        assert(views(all@).take(all.len() as int) == views(all@));
    }
    n
}

/// The property of announcing something fetched: the line holds "bookmark",
/// "->" or "new".
pub open spec fn fetched_line() -> spec_fn(Seq<char>) -> bool {
    |line: Seq<char>| contains(line, "bookmark"@) || contains(line, "->"@) || contains(line, "new"@)
}

/// Number of references that `output` reports as fetched.
pub open spec fn fetched_count(output: Seq<char>) -> nat {
    count_where(lines(output), fetched_line())
}

/// Counts the references that the output of `jj git fetch` reports as new.
pub fn count_fetched_refs(output: &str) -> (n: usize)
    ensures
        n == fetched_count(output@),
{
    let text = chars_of(output);
    let all = split_lines(text.as_slice());
    let bookmark = chars_of("bookmark");
    let arrow = chars_of("->");
    let new = chars_of("new");
    let mut n: usize = 0;
    let mut i: usize = 0;
    proof {
        assert(views(all@).take(0) == Seq::<Seq<char>>::empty());
    }
    while i < all.len()
        invariant
            i <= all.len(),
            n <= i,
            bookmark@ == "bookmark"@,
            arrow@ == "->"@,
            new@ == "new"@,
            n == count_where(views(all@).take(i as int), fetched_line()),
        decreases all.len() - i,
    {
        proof {
            let next = views(all@).take(i + 1);
            assert(next.drop_last() == views(all@).take(i as int));
            assert(next.last() == all@[i as int]@);
        }
        let line = all[i].as_slice();
        if includes(line, bookmark.as_slice()) || includes(line, arrow.as_slice()) || includes(
            line,
            new.as_slice(),
        ) {
            n += 1;
        }
        i += 1;
    }
    proof {
        assert(views(all@).take(all.len() as int) == views(all@));
    }
    n
}

// ---------------------------------------------------------------------------
// The number of rebased commits
// ---------------------------------------------------------------------------

/// The first count among `words` at or after `i`: the value of the first
/// token made of digits alone that fits a machine word.
pub open spec fn first_count(words: Seq<Seq<char>>, i: int) -> Option<nat>
    decreases words.len() - i,
{
    if i < 0 || i >= words.len() {
        None
    } else if numeral(words[i], usize::MAX as nat) is Some {
        numeral(words[i], usize::MAX as nat)
    } else {
        first_count(words, i + 1)
    }
}

/// The count on the first line at or after the `i`-th that holds "rebased"
/// in any case and a count; 0 where there is no such line.
pub open spec fn rebased_count_from(lines: Seq<Seq<char>>, i: int) -> nat
    decreases lines.len() - i,
{
    if i < 0 || i >= lines.len() {
        0
    } else if mentions(lines[i], "rebased"@) && first_count(tokens(lines[i]), 0) is Some {
        first_count(tokens(lines[i]), 0).unwrap()
    } else {
        rebased_count_from(lines, i + 1)
    }
}

/// Number of commits that `output` reports as rebased.
pub open spec fn rebased_count(output: Seq<char>) -> nat {
    rebased_count_from(lines(output), 0)
}

fn first_count_of(line: &[char]) -> (out: Option<usize>)
    ensures
        match out {
            Some(n) => first_count(tokens(line@), 0) == Some(n as nat),
            None => first_count(tokens(line@), 0) is None,
        },
{
    let words = split_tokens(line);
    let mut i: usize = 0;
    while i < words.len()
        invariant
            i <= words.len(),
            views(words@) == tokens(line@),
            first_count(tokens(line@), 0) == first_count(tokens(line@), i as int),
        decreases words.len() - i,
    {
        proof {
            assert(tokens(line@)[i as int] == words@[i as int]@);
        }
        match parse_decimal(words[i].as_slice(), usize::MAX as u64) {
            Some(n) => {
                return Some(n as usize);
            },
            None => {},
        }
        i += 1;
    }
    None
}

/// Reads the number of rebased commits out of the output of `jj rebase`.
pub fn extract_rebased_count(output: &str) -> (n: usize)
    ensures
        n == rebased_count(output@),
{
    let text = chars_of(output);
    let all = split_lines(text.as_slice());
    let word = chars_of("rebased");
    let mut i: usize = 0;
    while i < all.len()
        invariant
            i <= all.len(),
            word@ == "rebased"@,
            views(all@) == lines(output@),
            rebased_count(output@) == rebased_count_from(lines(output@), i as int),
        decreases all.len() - i,
    {
        proof {
            assert(lines(output@)[i as int] == all@[i as int]@);
        }
        let line = all[i].as_slice();
        if speaks_of(line, word.as_slice()) {
            match first_count_of(line) {
                Some(n) => {
                    return n;
                },
                None => {},
            }
        }
        i += 1;
    }
    0
}

// ---------------------------------------------------------------------------
// The name of a pushed bookmark
// ---------------------------------------------------------------------------

/// The position of the first token at or after `i` that starts with "push-".
pub open spec fn first_push_name(words: Seq<Seq<char>>, i: int) -> Option<int>
    decreases words.len() - i,
{
    if i < 0 || i >= words.len() {
        None
    } else if starts_with(words[i], "push-"@) {
        Some(i)
    } else {
        first_push_name(words, i + 1)
    }
}

/// The bookmark that `line` reports as pushed: the token in front of its
/// first "->", or else its first token that starts with "push-".
pub open spec fn pushed_on_line(line: Seq<char>) -> Option<Seq<char>> {
    let before = match find_first(line, "->"@) {
        Some(arrow) => tokens(line.take(arrow)),
        None => seq![],
    };
    if before.len() > 0 {
        Some(before.last())
    } else {
        match first_push_name(tokens(line), 0) {
            Some(k) => Some(tokens(line)[k]),
            None => None,
        }
    }
}

/// The bookmark on the first line at or after the `i`-th that reports one.
pub open spec fn pushed_from(lines: Seq<Seq<char>>, i: int) -> Option<Seq<char>>
    decreases lines.len() - i,
{
    if i < 0 || i >= lines.len() {
        None
    } else if pushed_on_line(lines[i]) is Some {
        pushed_on_line(lines[i])
    } else {
        pushed_from(lines, i + 1)
    }
}

/// The bookmark that `output` reports as pushed.
pub open spec fn pushed_bookmark(output: Seq<char>) -> Option<Seq<char>> {
    pushed_from(lines(output), 0)
}

fn pushed_on_line_of(line: &[char]) -> (out: Option<Vec<char>>)
    ensures
        match out {
            Some(name) => pushed_on_line(line@) == Some(name@),
            None => pushed_on_line(line@) is None,
        },
{
    let arrow = chars_of("->");
    match find(line, arrow.as_slice()) {
        Some(at) => {
            proof {
                lemma_find_from(line@, arrow@, 0);
            }
            let before = split_tokens(slice_subrange(line, 0, at));
            if before.len() > 0 {
                proof {
                    assert(tokens(line@.take(at as int)).last() == before@.last()@);
                }
                return Some(before[before.len() - 1].clone());
            }
        },
        None => {},
    }
    let push = chars_of("push-");
    let words = split_tokens(line);
    let mut i: usize = 0;
    proof {
        assert(pushed_on_line(line@) == match first_push_name(tokens(line@), 0) {
            Some(k) => Some(tokens(line@)[k]),
            None => None,
        });
    }
    while i < words.len()
        invariant
            i <= words.len(),
            push@ == "push-"@,
            views(words@) == tokens(line@),
            pushed_on_line(line@) == match first_push_name(tokens(line@), 0) {
                Some(k) => Some(tokens(line@)[k]),
                None => None,
            },
            first_push_name(tokens(line@), 0) == first_push_name(tokens(line@), i as int),
        decreases words.len() - i,
    {
        proof {
            assert(tokens(line@)[i as int] == words@[i as int]@);
        }
        if begins_with(words[i].as_slice(), push.as_slice()) {
            return Some(words[i].clone());
        }
        i += 1;
    }
    None
}

/// Reads the name of the pushed bookmark out of the output of
/// `jj git push`.
pub fn extract_pushed_bookmark(output: &str) -> (out: Option<String>)
    ensures
        match out {
            Some(name) => pushed_bookmark(output@) == Some(name@),
            None => pushed_bookmark(output@) is None,
        },
{
    let text = chars_of(output);
    let all = split_lines(text.as_slice());
    let mut i: usize = 0;
    while i < all.len()
        invariant
            i <= all.len(),
            views(all@) == lines(output@),
            pushed_bookmark(output@) == pushed_from(lines(output@), i as int),
        decreases all.len() - i,
    {
        proof {
            assert(lines(output@)[i as int] == all@[i as int]@);
        }
        match pushed_on_line_of(all[i].as_slice()) {
            Some(name) => {
                return Some(string_of(name.as_slice()));
            },
            None => {},
        }
        i += 1;
    }
    None
}

// ---------------------------------------------------------------------------
// The confirmation itself
// ---------------------------------------------------------------------------

/// A command that changes the repository and is confirmed in one line.
#[derive(Clone, Copy, PartialEq, Eq, Structural, Debug)]
pub enum Mutation {
    /// Set the description of a change.
    Describe,
    /// Create a change.
    New,
    /// Move changes into the parent.
    Squash,
    /// Distribute changes over the ancestors that they belong to.
    Absorb,
    /// Move commits onto another parent.
    Rebase,
    /// Create, move, rename or delete a bookmark.
    Bookmark,
    /// Push to a remote.
    Push,
    /// Fetch from a remote.
    Fetch,
    /// Undo the last operation.
    Undo,
}

/// The one line that confirms a successful `kind`, given everything that the
/// command wrote: "ok" and the check mark, then what was done and the one
/// value read from the output, where the command has them.
pub open spec fn confirmation(kind: Mutation, combined: Seq<char>) -> Seq<char> {
    match kind {
        Mutation::Describe => "ok \u{2713}"@,
        Mutation::Bookmark => "ok \u{2713}"@,
        Mutation::Squash => "ok \u{2713} squashed"@,
        Mutation::Undo => "ok \u{2713} undone"@,
        Mutation::New => match change_id(combined) {
            Some(id) => "ok \u{2713} "@ + id,
            None => "ok \u{2713}"@,
        },
        Mutation::Absorb => if absorbed_count(combined) > 0 {
            "ok \u{2713} absorbed "@ + digits_of(absorbed_count(combined)) + " changes"@
        } else {
            "ok \u{2713} absorbed"@
        },
        Mutation::Rebase => if rebased_count(combined) > 0 {
            "ok \u{2713} rebased "@ + digits_of(rebased_count(combined)) + " commits"@
        } else {
            "ok \u{2713} rebased"@
        },
        Mutation::Push => match pushed_bookmark(combined) {
            Some(name) => "ok \u{2713} pushed "@ + name,
            None => "ok \u{2713} pushed"@,
        },
        Mutation::Fetch => if fetched_count(combined) > 0 {
            "ok \u{2713} fetched ("@ + digits_of(fetched_count(combined)) + " new)"@
        } else {
            "ok \u{2713} fetched"@
        },
    }
}

fn counted(before: &str, n: usize, after: &str) -> (out: String)
    ensures
        out@ == before@ + digits_of(n as nat) + after@,
{
    let mut out = chars_of(before);
    push_decimal(&mut out, n);
    push_all(&mut out, chars_of(after).as_slice());
    string_of(out.as_slice())
}

fn named(before: &str, name: &str) -> (out: String)
    ensures
        out@ == before@ + name@,
{
    let mut out = chars_of(before);
    push_all(&mut out, chars_of(name).as_slice());
    string_of(out.as_slice())
}

fn plain(text: &str) -> (out: String)
    ensures
        out@ == text@,
{
    string_of(chars_of(text).as_slice())
}

/// Confirms a successful `kind` in one line.
pub fn confirm(kind: Mutation, combined: &str) -> (out: String)
    ensures
        out@ == confirmation(kind, combined@),
{
    match kind {
        Mutation::Describe => plain("ok \u{2713}"),
        Mutation::Bookmark => plain("ok \u{2713}"),
        Mutation::Squash => plain("ok \u{2713} squashed"),
        Mutation::Undo => plain("ok \u{2713} undone"),
        Mutation::New => match extract_change_id(combined) {
            Some(id) => named("ok \u{2713} ", id.as_str()),
            None => plain("ok \u{2713}"),
        },
        Mutation::Absorb => {
            let n = count_absorbed_changes(combined);
            if n > 0 {
                counted("ok \u{2713} absorbed ", n, " changes")
            } else {
                plain("ok \u{2713} absorbed")
            }
        },
        Mutation::Rebase => {
            let n = extract_rebased_count(combined);
            if n > 0 {
                counted("ok \u{2713} rebased ", n, " commits")
            } else {
                plain("ok \u{2713} rebased")
            }
        },
        Mutation::Push => match extract_pushed_bookmark(combined) {
            Some(name) => named("ok \u{2713} pushed ", name.as_str()),
            None => plain("ok \u{2713} pushed"),
        },
        Mutation::Fetch => {
            let n = count_fetched_refs(combined);
            if n > 0 {
                counted("ok \u{2713} fetched (", n, " new)")
            } else {
                plain("ok \u{2713} fetched")
            }
        },
    }
}

} // verus!
