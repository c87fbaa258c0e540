//! The bookmark list: one row per bookmark, with its name, the ids of its
//! target and a mark where a remote tracks it.

use vstd::prelude::*;
use vstd::slice::{slice_subrange, slice_to_vec};
use crate::text::{
    chars_of, contains, find, find_first, includes, lemma_find_from, lines, occurs_at,
    push_all, render, rendered, split_lines, split_tokens, tokens, trim, trimmed, views,
};

verus! {

/// What is shown when the list holds no bookmark.
pub open spec fn no_bookmarks() -> Seq<char> {
    "No bookmarks"@
}

/// What the scan of a bookmark list knows after some of its lines.
pub struct BookmarkScan {
    /// The rows that are complete.
    pub rows: Seq<Seq<char>>,
    /// The bookmark being read, without its mark, if the last row is one.
    pub entry: Option<Seq<char>>,
    /// Whether a remote follows the bookmark being read.
    pub remote: bool,
}

/// Whether `line` speaks of tracking: it holds "@origin" or "(tracked)".
pub open spec fn mentions_tracking(line: Seq<char>) -> bool {
    contains(line, "@origin"@) || contains(line, "(tracked)"@)
}

/// The row of a bookmark with its mark.
pub open spec fn marked(entry: Seq<char>, remote: bool) -> Seq<char> {
    if remote {
        entry + " (tracked)"@
    } else {
        entry
    }
}

/// The complete rows together with the bookmark being read, if any.
pub open spec fn bookmark_rows_of(st: BookmarkScan) -> Seq<Seq<char>> {
    match st.entry {
        Some(entry) => st.rows.push(marked(entry, st.remote)),
        None => st.rows,
    }
}

/// The row of the bookmark that the trimmed line `t` names, if it names one:
/// what stands before the first colon, then ": " and the first two tokens
/// after the colon, with a space between them.
pub open spec fn bookmark_entry(t: Seq<char>) -> Option<Seq<char>> {
    match find_first(t, ":"@) {
        Some(colon) => {
            let parts = tokens(t.skip(colon + 1));
            if parts.len() >= 2 {
                Some(t.take(colon) + seq![':', ' '] + parts[0] + seq![' '] + parts[1])
            } else {
                None
            }
        },
        None => None,
    }
}

/// The scan after one more line.
///
/// An empty line changes nothing. A line that starts with `@` is tracking
/// detail: it is dropped, and marks the bookmark being read where it speaks
/// of tracking. Any other line completes the bookmark being read; it starts
/// a new one where it names one, marked if the line itself speaks of
/// tracking, and is kept as it is, trimmed, where it does not.
pub open spec fn bookmark_step(st: BookmarkScan, line: Seq<char>) -> BookmarkScan {
    let t = trimmed(line);
    if t.len() == 0 {
        st
    } else if t[0] == '@' {
        BookmarkScan {
            remote: st.remote || (st.entry is Some && mentions_tracking(line)),
            ..st
        }
    } else {
        match bookmark_entry(t) {
            Some(entry) => BookmarkScan {
                rows: bookmark_rows_of(st),
                entry: Some(entry),
                remote: mentions_tracking(line),
            },
            None => BookmarkScan {
                rows: bookmark_rows_of(st).push(t),
                entry: None,
                remote: false,
            },
        }
    }
}

/// The scan after all of `lines`.
pub open spec fn bookmark_scan(lines: Seq<Seq<char>>) -> BookmarkScan
    decreases lines.len(),
{
    if lines.len() == 0 {
        BookmarkScan { rows: seq![], entry: None, remote: false }
    } else {
        bookmark_step(bookmark_scan(lines.drop_last()), lines.last())
    }
}

/// The rows of a bookmark list.
pub open spec fn bookmark_rows(output: Seq<char>) -> Seq<Seq<char>> {
    bookmark_rows_of(bookmark_scan(lines(output)))
}

fn bookmark_entry_of(t: &[char]) -> (out: Option<Vec<char>>)
    ensures
        match out {
            Some(row) => bookmark_entry(t@) == Some(row@),
            None => bookmark_entry(t@) is None,
        },
{
    let colon = chars_of(":");
    match find(t, colon.as_slice()) {
        Some(at) => {
            proof {
                lemma_find_from(t@, colon@, 0);
                reveal_strlit(":");
                assert(colon@.len() == 1);
                assert(occurs_at(t@, colon@, at as int));
                assert(at + 1 <= t.len());
            }
            let parts = split_tokens(slice_subrange(t, at + 1, t.len()));
            if parts.len() >= 2 {
                proof {
                    assert(tokens(t@.skip(at + 1))[0] == parts@[0]@);
                    assert(tokens(t@.skip(at + 1))[1] == parts@[1]@);
                }
                let mut row = slice_to_vec(slice_subrange(t, 0, at));
                row.push(':');
                row.push(' ');
                push_all(&mut row, parts[0].as_slice());
                row.push(' ');
                push_all(&mut row, parts[1].as_slice());
                proof {
                    assert(row@ == t@.take(at as int) + seq![':', ' '] + parts@[0]@ + seq![' ']
                        + parts@[1]@);
                }
                Some(row)
            } else {
                None
            }
        },
        None => None,
    }
}

fn complete(rows: &mut Vec<Vec<char>>, entry: Option<Vec<char>>, remote: bool)
    ensures
        views(final(rows)@) == (match entry {
            Some(e) => views(old(rows)@).push(marked(e@, remote)),
            None => views(old(rows)@),
        }),
{
    match entry {
        Some(mut row) => {
            if remote {
                push_all(&mut row, chars_of(" (tracked)").as_slice());
            }
            let ghost kept = views(rows@);
            rows.push(row);
            proof {
                assert(views(rows@) == kept.push(row@));
            }
        },
        None => {},
    }
}

fn speaks_of_tracking(line: &[char]) -> (b: bool)
    ensures
        b == mentions_tracking(line@),
{
    includes(line, chars_of("@origin").as_slice()) || includes(
        line,
        chars_of("(tracked)").as_slice(),
    )
}

/// An empty list shows "No bookmarks".
pub proof fn lemma_empty_bookmark_list()
    ensures
        rendered(bookmark_rows(seq![]), no_bookmarks()) == no_bookmarks(),
{
}

/// Compacts the output of `jj bookmark list`: one row per bookmark, or
/// "No bookmarks" where the list is empty.
pub fn filter_bookmark_list(output: &str) -> (out: String)
    ensures
        out@ == rendered(bookmark_rows(output@), no_bookmarks()),
{
    let text = chars_of(output);
    let all = split_lines(text.as_slice());
    let mut rows: Vec<Vec<char>> = Vec::new();
    let mut entry: Option<Vec<char>> = None;
    let mut remote = false;
    let mut i: usize = 0;
    proof {
        assert(views(all@).take(0) == Seq::<Seq<char>>::empty());
        assert(views(rows@) == Seq::<Seq<char>>::empty());
    }
    while i < all.len()
        invariant
            i <= all.len(),
            views(all@) == lines(output@),
            views(rows@) == bookmark_scan(views(all@).take(i as int)).rows,
            remote == bookmark_scan(views(all@).take(i as int)).remote,
            match entry {
                Some(e) => bookmark_scan(views(all@).take(i as int)).entry == Some(e@),
                None => bookmark_scan(views(all@).take(i as int)).entry is None,
            },
        decreases all.len() - i,
    {
        proof {
            let next = views(all@).take(i + 1);
            assert(next.drop_last() == views(all@).take(i as int));
            assert(next.last() == all@[i as int]@);
        }
        let line = all[i].as_slice();
        let t = trim(line);
        if t.len() == 0 {
        } else if t[0] == '@' {
            if entry.is_some() && speaks_of_tracking(line) {
                remote = true;
            }
        } else {
            complete(&mut rows, entry, remote);
            match bookmark_entry_of(t) {
                Some(row) => {
                    entry = Some(row);
                    remote = speaks_of_tracking(line);
                },
                None => {
                    let ghost kept = views(rows@);
                    let row = slice_to_vec(t);
                    rows.push(row);
                    proof {
                        assert(views(rows@) == kept.push(row@));
                    }
                    entry = None;
                    remote = false;
                },
            }
        }
        i += 1;
    }
    proof {
        assert(views(all@).take(all.len() as int) == views(all@));
    }
    complete(&mut rows, entry, remote);
    render(&rows, "No bookmarks")
}

} // verus!
