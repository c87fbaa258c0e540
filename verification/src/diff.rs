//! The diff compactor: headers stay as they are, the lines of a hunk are cut
//! to a width.

use vstd::prelude::*;
use vstd::slice::slice_to_vec;
use crate::text::{
    begins_with, byte_len, chars_of, join_rows, joined, lemma_byte_len_subrange,
    lemma_joined_fit, lemma_lines_fit, lines, prefix, split_lines, starts_with, string_of,
    take_prefix, views,
};

verus! {

/// Whether `line` opens the diff of a file.
pub open spec fn opens_file(line: Seq<char>) -> bool {
    starts_with(line, "diff --git"@)
}

/// Whether `line` opens a hunk.
pub open spec fn opens_hunk(line: Seq<char>) -> bool {
    starts_with(line, "@@"@)
}

/// Whether `line` is a header: it opens a file or a hunk, or names the old
/// or the new file.
pub open spec fn is_header(line: Seq<char>) -> bool {
    opens_file(line) || opens_hunk(line) || starts_with(line, "---"@) || starts_with(
        line,
        "+++"@,
    )
}

/// Whether a line that follows `lines` stands inside a hunk: a hunk was
/// opened, and no file since.
pub open spec fn in_hunk(lines: Seq<Seq<char>>) -> bool
    decreases lines.len(),
{
    if lines.len() == 0 {
        false
    } else if opens_file(lines.last()) {
        false
    } else if opens_hunk(lines.last()) {
        true
    } else {
        in_hunk(lines.drop_last())
    }
}

/// What is kept of `line`: all of it where it is a header or stands outside
/// every hunk, its first `width` characters where it stands inside one.
pub open spec fn compact_line(line: Seq<char>, inside: bool, width: nat) -> Seq<char> {
    if is_header(line) || !inside {
        line
    } else {
        prefix(line, width)
    }
}

/// What is kept of each of `lines`.
pub open spec fn compact_lines(lines: Seq<Seq<char>>, width: nat) -> Seq<Seq<char>> {
    Seq::new(lines.len(), |i: int| compact_line(lines[i], in_hunk(lines.take(i)), width))
}

/// The compacted diff: what is kept of each line, one per line.
pub open spec fn compacted(diff: Seq<char>, width: nat) -> Seq<char> {
    joined(compact_lines(lines(diff), width))
}

/// A compacted diff takes no more bytes than the diff.
pub proof fn lemma_compacted_fits(diff: Seq<char>, width: nat)
    ensures
        byte_len(compacted(diff, width)) <= byte_len(diff),
{
    let all = lines(diff);
    let kept = compact_lines(all, width);
    assert forall|i: int| 0 <= i < kept.len() implies byte_len(#[trigger] kept[i]) <= byte_len(
        all[i],
    ) by {
        if kept[i] != all[i] {
            lemma_byte_len_subrange(all[i], 0, width as int);
        }
    }
    lemma_joined_fit(kept, all);
    lemma_lines_fit(diff);
}

/// Compacts a diff: every line inside a hunk is cut to `width` characters;
/// headers, and whatever stands outside the hunks, stay whole. The result
/// is never larger than the diff.
pub fn compact_diff(diff: &str, width: usize) -> (out: String)
    ensures
        out@ == compacted(diff@, width as nat),
        byte_len(out@) <= byte_len(diff@),
{
    let text = chars_of(diff);
    string_of(compact(text.as_slice(), width).as_slice())
}

/// The diff compactor on characters.
pub fn compact(diff: &[char], width: usize) -> (out: Vec<char>)
    ensures
        out@ == compacted(diff@, width as nat),
        byte_len(out@) <= byte_len(diff@),
{
    let all = split_lines(diff);
    let file = chars_of("diff --git");
    let hunk = chars_of("@@");
    let old = chars_of("---");
    let new = chars_of("+++");
    let mut rows: Vec<Vec<char>> = Vec::new();
    let mut inside = false;
    let mut i: usize = 0;
    proof {
        assert(views(all@).take(0) == Seq::<Seq<char>>::empty());
        assert(views(rows@) == compact_lines(views(all@), width as nat).take(0));
    }
    while i < all.len()
        invariant
            i <= all.len(),
            file@ == "diff --git"@,
            hunk@ == "@@"@,
            old@ == "---"@,
            new@ == "+++"@,
            inside == in_hunk(views(all@).take(i as int)),
            views(all@) == lines(diff@),
            views(rows@) == compact_lines(views(all@), width as nat).take(i as int),
        decreases all.len() - i,
    {
        proof {
            let next = views(all@).take(i + 1);
            assert(next.drop_last() == views(all@).take(i as int));
            assert(next.last() == all@[i as int]@);
        }
        let line = all[i].as_slice();
        let opens_file = begins_with(line, file.as_slice());
        let opens_hunk = begins_with(line, hunk.as_slice());
        let header = opens_file || opens_hunk || begins_with(line, old.as_slice()) || begins_with(
            line,
            new.as_slice(),
        );
        let row = if header || !inside {
            slice_to_vec(line)
        } else {
            slice_to_vec(take_prefix(line, width))
        };
        let ghost kept = views(rows@);
        rows.push(row);
        proof {
            assert(views(rows@) == kept.push(row@));
            assert(compact_lines(views(all@), width as nat).take(i + 1) == compact_lines(
                views(all@),
                width as nat,
            ).take(i as int).push(row@));
        }
        if opens_file {
            inside = false;
        } else if opens_hunk {
            inside = true;
        }
        i += 1;
    }
    proof {
        assert(views(all@).take(all.len() as int) == views(all@));
        assert(compact_lines(views(all@), width as nat).take(all.len() as int) == compact_lines(
            views(all@),
            width as nat,
        ));
        lemma_compacted_fits(diff@, width as nat);
    }
    join_rows(&rows)
}

} // verus!
