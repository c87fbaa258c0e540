//! The working-copy status: the working copy, the files it changes and its
//! parent, one row each.

use vstd::prelude::*;
use vstd::slice::slice_subrange;
use crate::text::{
    begins_with, chars_of, contains, find, find_first, includes, lemma_find_from, lines,
    push_all, render, rendered, split_lines, split_tokens, starts_with, string_of, tokens,
    trim, trimmed, views,
};

verus! {

/// What is shown when the status holds nothing to report.
pub open spec fn clean_working_copy() -> Seq<char> {
    "Clean working copy"@
}

/// The bookmark on a commit line, given what follows the colon: the third
/// token before the first " | ". Empty where there is no " | ", or no third
/// token before it: what follows the ids is then the description, of which
/// no word is shown.
pub open spec fn commit_bookmark(after: Seq<char>) -> Seq<char> {
    match find_first(after, " | "@) {
        Some(bar) => {
            let named = tokens(after.take(bar));
            if named.len() >= 3 {
                named[2]
            } else {
                seq![]
            }
        },
        None => seq![],
    }
}

/// The row for a commit line: `prefix`, the change id and the commit id (the
/// first two tokens after the first ": "), the bookmark if there is one, and
/// "(empty)" if the line holds it after the colon. A line without ": ", or
/// with fewer than two tokens after it, is kept whole behind `prefix`.
pub open spec fn commit_line(line: Seq<char>, prefix: Seq<char>) -> Seq<char> {
    let whole = prefix + seq![' '] + line;
    match find_first(line, ": "@) {
        Some(colon) => {
            let after = line.skip(colon + 2);
            let parts = tokens(after);
            if parts.len() >= 2 {
                prefix + seq![' '] + parts[0] + seq![' '] + parts[1] + (if commit_bookmark(
                    after,
                ).len() > 0 {
                    seq![' '] + commit_bookmark(after)
                } else {
                    seq![]
                }) + (if contains(after, "(empty)"@) {
                    " (empty)"@
                } else {
                    seq![]
                })
            } else {
                whole
            }
        },
        None => whole,
    }
}

fn commit_bookmark_of(after: &[char]) -> (out: Vec<char>)
    ensures
        out@ == commit_bookmark(after@),
{
    let bar = chars_of(" | ");
    match find(after, bar.as_slice()) {
        Some(at) => {
            proof {
                lemma_find_from(after@, bar@, 0);
            }
            let named = split_tokens(slice_subrange(after, 0, at));
            if named.len() >= 3 {
                proof {
                    assert(tokens(after@.take(at as int))[2] == named@[2]@);
                }
                named[2].clone()
            } else {
                Vec::new()
            }
        },
        None => Vec::new(),
    }
}

/// The row for a commit line, on characters.
pub fn commit_line_of(line: &[char], prefix: &[char]) -> (out: Vec<char>)
    ensures
        out@ == commit_line(line@, prefix@),
{
    let mut out: Vec<char> = Vec::new();
    push_all(&mut out, prefix);
    out.push(' ');
    let colon = chars_of(": ");
    match find(line, colon.as_slice()) {
        Some(at) => {
            proof {
                lemma_find_from(line@, colon@, 0);
                reveal_strlit(": ");
                assert(colon@.len() == 2);
                assert(crate::text::occurs_at(line@, colon@, at as int));
                assert(at + 2 <= line.len());
            }
            let after = slice_subrange(line, at + 2, line.len());
            let parts = split_tokens(after);
            if parts.len() >= 2 {
                proof {
                    assert(tokens(after@)[0] == parts@[0]@);
                    assert(tokens(after@)[1] == parts@[1]@);
                }
                push_all(&mut out, parts[0].as_slice());
                out.push(' ');
                push_all(&mut out, parts[1].as_slice());
                let bookmark = commit_bookmark_of(after);
                if bookmark.len() > 0 {
                    out.push(' ');
                    push_all(&mut out, bookmark.as_slice());
                }
                if includes(after, chars_of("(empty)").as_slice()) {
                    push_all(&mut out, chars_of(" (empty)").as_slice());
                }
                proof {
                    assert(out@ == commit_line(line@, prefix@));
                }
                return out;
            }
        },
        None => {},
    }
    push_all(&mut out, line);
    out
}

/// Compacts one commit line of `jj status`, putting `prefix` in front.
pub fn parse_commit_line(line: &str, prefix: &str) -> (out: String)
    ensures
        out@ == commit_line(line@, prefix@),
{
    let chars = chars_of(line);
    let mark = chars_of(prefix);
    string_of(commit_line_of(chars.as_slice(), mark.as_slice()).as_slice())
}

/// What a line of the status is about.
#[derive(Clone, Copy, PartialEq, Eq, Structural, Debug)]
pub enum StatusLine {
    /// Nothing that is reported.
    Other,
    /// A changed file.
    Change,
    /// The working-copy commit.
    WorkingCopy,
    /// The parent commit.
    Parent,
}

/// A one-letter file status: modified, added, deleted, renamed or copied.
pub open spec fn is_change_letter(c: char) -> bool {
    c == 'M' || c == 'A' || c == 'D' || c == 'R' || c == 'C'
}

/// What the trimmed line `t` is about. Messages on the working copy or on a
/// rebase are not reported. A changed file is a status letter, a space and
/// at least one more character.
pub open spec fn status_line(t: Seq<char>) -> StatusLine {
    if starts_with(t, "The working copy"@) || starts_with(t, "Rebased"@) || t.len() == 0 {
        StatusLine::Other
    } else if t.len() > 2 && is_change_letter(t[0]) && t[1] == ' ' {
        StatusLine::Change
    } else if starts_with(t, "Working copy"@) {
        StatusLine::WorkingCopy
    } else if starts_with(t, "Parent commit"@) {
        StatusLine::Parent
    } else {
        StatusLine::Other
    }
}

/// Tells what the trimmed line `t` is about.
pub fn status_line_of(t: &[char]) -> (kind: StatusLine)
    ensures
        kind == status_line(t@),
{
    if begins_with(t, chars_of("The working copy").as_slice()) || begins_with(
        t,
        chars_of("Rebased").as_slice(),
    ) || t.len() == 0 {
        StatusLine::Other
    } else if t.len() > 2 && (t[0] == 'M' || t[0] == 'A' || t[0] == 'D' || t[0] == 'R' || t[0]
        == 'C') && t[1] == ' ' {
        StatusLine::Change
    } else if begins_with(t, chars_of("Working copy").as_slice()) {
        StatusLine::WorkingCopy
    } else if begins_with(t, chars_of("Parent commit").as_slice()) {
        StatusLine::Parent
    } else {
        StatusLine::Other
    }
}

/// The row of the last line of the given kind, if there is one.
pub open spec fn last_commit_row(lines: Seq<Seq<char>>, kind: StatusLine, prefix: Seq<char>) -> Seq<
    Seq<char>,
>
    decreases lines.len(),
{
    if lines.len() == 0 {
        seq![]
    } else if status_line(trimmed(lines.last())) == kind {
        seq![commit_line(trimmed(lines.last()), prefix)]
    } else {
        last_commit_row(lines.drop_last(), kind, prefix)
    }
}

/// The rows of the changed files, in order: each trimmed line behind two
/// spaces.
pub open spec fn change_rows(lines: Seq<Seq<char>>) -> Seq<Seq<char>>
    decreases lines.len(),
{
    if lines.len() == 0 {
        seq![]
    } else if status_line(trimmed(lines.last())) == StatusLine::Change {
        change_rows(lines.drop_last()).push(seq![' ', ' '] + trimmed(lines.last()))
    } else {
        change_rows(lines.drop_last())
    }
}

/// The rows of a status: the working copy, the changed files, the parent.
pub open spec fn status_rows(output: Seq<char>) -> Seq<Seq<char>> {
    let all = lines(output);
    last_commit_row(all, StatusLine::WorkingCopy, "@"@) + change_rows(all) + last_commit_row(
        all,
        StatusLine::Parent,
        "@-"@,
    )
}

fn push_rows(out: &mut Vec<Vec<char>>, rows: Vec<Vec<char>>)
    ensures
        views(final(out)@) == views(old(out)@) + views(rows@),
{
    let mut rows = rows;
    out.append(&mut rows);
}

/// An empty status shows "Clean working copy".
pub proof fn lemma_empty_status()
    ensures
        rendered(status_rows(seq![]), clean_working_copy()) == clean_working_copy(),
{
}

/// Compacts the output of `jj status`: the working copy, each changed file
/// and the parent, or "Clean working copy" where there is none of them.
pub fn filter_jj_status(output: &str) -> (out: String)
    ensures
        out@ == rendered(status_rows(output@), clean_working_copy()),
{
    let text = chars_of(output);
    let all = split_lines(text.as_slice());
    let at = chars_of("@");
    let at_minus = chars_of("@-");
    let mut working: Vec<Vec<char>> = Vec::new();
    let mut changes: Vec<Vec<char>> = Vec::new();
    let mut parent: Vec<Vec<char>> = Vec::new();
    let mut i: usize = 0;
    proof {
        assert(views(all@).take(0) == Seq::<Seq<char>>::empty());
        assert(views(working@) == Seq::<Seq<char>>::empty());
        assert(views(changes@) == Seq::<Seq<char>>::empty());
    }
    while i < all.len()
        invariant
            i <= all.len(),
            at@ == "@"@,
            at_minus@ == "@-"@,
            views(all@) == lines(output@),
            views(working@) == last_commit_row(
                views(all@).take(i as int),
                StatusLine::WorkingCopy,
                "@"@,
            ),
            views(changes@) == change_rows(views(all@).take(i as int)),
            views(parent@) == last_commit_row(views(all@).take(i as int), StatusLine::Parent, "@-"@),
        decreases all.len() - i,
    {
        proof {
            let next = views(all@).take(i + 1);
            assert(next.drop_last() == views(all@).take(i as int));
            assert(next.last() == all@[i as int]@);
        }
        let t = trim(all[i].as_slice());
        match status_line_of(t) {
            StatusLine::Other => {},
            StatusLine::Change => {
                let mut row: Vec<char> = Vec::new();
                row.push(' ');
                row.push(' ');
                push_all(&mut row, t);
                let ghost kept = views(changes@);
                changes.push(row);
                proof {
                    assert(row@ == seq![' ', ' '] + t@);
                    assert(views(changes@) == kept.push(row@));
                }
            },
            StatusLine::WorkingCopy => {
                let row = commit_line_of(t, at.as_slice());
                working = Vec::new();
                working.push(row);
                proof {
                    assert(views(working@) == seq![row@]);
                }
            },
            StatusLine::Parent => {
                let row = commit_line_of(t, at_minus.as_slice());
                parent = Vec::new();
                parent.push(row);
                proof {
                    assert(views(parent@) == seq![row@]);
                }
            },
        }
        i += 1;
    }
    proof {
        assert(views(all@).take(all.len() as int) == views(all@));
    }
    let mut result = working;
    push_rows(&mut result, changes);
    push_rows(&mut result, parent);
    render(&result, "Clean working copy")
}

} // verus!
