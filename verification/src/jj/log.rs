//! The commit log: one row per commit, with its glyph, change id, short
//! commit id, bookmark and description.

use vstd::prelude::*;
use crate::classify::{
    date_shaped, email_shaped, is_date_shaped, is_email_shaped, is_glyph, is_glyph_char,
    is_bar_char, is_short_hex, is_time_shaped, lemma_short_hex_is_plain, short_hex,
};
use crate::jj::oplog::{bar_content, continues_graph};
use crate::text::{
    back_span, begins_with, chars_of, contains, ellipsis, first_n, has_char, includes, is_char,
    joined,
    is_row, is_space, is_word, lemma_back_span, lemma_concat_lacks, lemma_first_n_push,
    lemma_lines_lack_newlines, lemma_lines_of_joined, lemma_part_lacks, lemma_span,
    lemma_first_n_grows, lemma_tokens_are_words, lemma_tokens_of_blank, lemma_tokens_of_joined,
    lemma_tokens_of_word, lemma_tokens_spaced, lemma_trimmed, lines, prefix, push_all, render,
    rendered, space, span, split_lines, tokens_of_rows,
    split_tokens, starts_with, string_of, strip_leading, tokens, trim, trim_start, trimmed,
    trimmed_start, truncate, truncated, views, without_leading,
};

verus! {

/// What is shown when the log holds no commit.
pub open spec fn no_commits() -> Seq<char> {
    "No commits"@
}

/// Longest description snippet, in characters.
pub const SNIPPET_MAX: usize = 50;

/// Shortens `msg` to at most `max` characters, ending it in "..." where
/// something was cut off.
pub fn truncate_message(msg: &str, max: usize) -> (out: String)
    ensures
        out@ == truncated(msg@, max as nat),
{
    let chars = chars_of(msg);
    string_of(truncate(chars.as_slice(), max).as_slice())
}

/// The glyph that a trimmed line starts with, or nothing.
pub open spec fn entry_glyph(t: Seq<char>) -> Seq<char> {
    if t.len() > 0 && is_glyph(t[0]) {
        seq![t[0]]
    } else {
        seq![]
    }
}

/// The tokens of a trimmed line after the glyphs in front of it.
pub open spec fn entry_fields(t: Seq<char>) -> Seq<Seq<char>> {
    tokens(
        without_leading(
            without_leading(without_leading(without_leading(t, '@'), '\u{25cb}'), '\u{25c6}'),
            '\u{25cf}',
        ),
    )
}

/// The position of the first short hexadecimal token at or after `i`.
pub open spec fn first_short_hex(parts: Seq<Seq<char>>, i: int) -> Option<int>
    decreases parts.len() - i,
{
    if i < 0 || i >= parts.len() {
        None
    } else if short_hex(parts[i]) {
        Some(i)
    } else {
        first_short_hex(parts, i + 1)
    }
}

/// Whether a token after the commit id can be a bookmark: it is not in
/// parentheses and has neither `@` nor `-`.
pub open spec fn bookmark_like(t: Seq<char>) -> bool {
    !(t.len() > 0 && t[0] == '(') && !t.contains('@') && !t.contains('-')
}

/// The short commit id among the fields of an entry: the first short
/// hexadecimal token after the change id, or nothing.
pub open spec fn entry_commit(parts: Seq<Seq<char>>) -> Seq<char> {
    match first_short_hex(parts, 1) {
        Some(k) => parts[k],
        None => seq![],
    }
}

/// The bookmark among the fields of an entry: the token after the commit id,
/// if there is one and it can be a bookmark.
pub open spec fn entry_bookmark(parts: Seq<Seq<char>>) -> Seq<char> {
    match first_short_hex(parts, 1) {
        Some(k) => if k + 1 < parts.len() && bookmark_like(parts[k + 1]) {
            parts[k + 1]
        } else {
            seq![]
        },
        None => seq![],
    }
}

/// The row of the entry that `line` opens: glyph, change id and commit id,
/// each followed by a space, then the bookmark if there is one. A line with
/// nothing after its glyph gives the glyph alone.
pub open spec fn log_entry(line: Seq<char>) -> Seq<char> {
    let t = trimmed(line);
    let parts = entry_fields(t);
    if parts.len() == 0 {
        entry_glyph(t)
    } else {
        entry_glyph(t) + seq![' '] + parts[0] + seq![' '] + entry_commit(parts) + (if entry_bookmark(
            parts,
        ).len() > 0 {
            seq![' '] + entry_bookmark(parts)
        } else {
            seq![]
        })
    }
}

/// The row of the entry that `line` opens.
pub fn log_entry_of(line: &[char]) -> (out: Vec<char>)
    ensures
        out@ == log_entry(line@),
{
    let t = trim(line);
    let mut out: Vec<char> = Vec::new();
    if t.len() > 0 && is_glyph_char(t[0]) {
        out.push(t[0]);
    }
    let rest = strip_leading(
        strip_leading(strip_leading(strip_leading(t, '@'), '\u{25cb}'), '\u{25c6}'),
        '\u{25cf}',
    );
    let parts = split_tokens(rest);
    if parts.len() == 0 {
        return out;
    }
    let ghost fields = entry_fields(t@);
    let mut commit: Option<usize> = None;
    let mut i: usize = 1;
    while i < parts.len()
        invariant_except_break
            1 <= i,
            commit is None,
            first_short_hex(fields, 1) == first_short_hex(fields, i as int),
        invariant
            views(parts@) == fields,
        ensures
            match commit {
                Some(k) => first_short_hex(fields, 1) == Some(k as int) && k < parts.len(),
                None => first_short_hex(fields, 1) is None,
            },
        decreases parts.len() - i,
    {
        let part = parts[i].as_slice();
        proof {
            assert(fields[i as int] == part@);
            if short_hex(part@) {
                lemma_short_hex_is_plain(part@);
            }
        }
        if is_email_shaped(part) || is_date_shaped(part) || is_time_shaped(part) {
            i += 1;
            continue ;
        }
        if is_short_hex(part) {
            commit = Some(i);
            break ;
        }
        i += 1;
    }
    out.push(' ');
    push_all(&mut out, parts[0].as_slice());
    out.push(' ');
    proof {
        assert(fields[0] == parts@[0]@);
    }
    match commit {
        Some(k) => {
            proof {
                assert(fields[k as int] == parts@[k as int]@);
            }
            push_all(&mut out, parts[k].as_slice());
            if k + 1 < parts.len() {
                let next = parts[k + 1].as_slice();
                proof {
                    assert(fields[k + 1] == next@);
                    lemma_tokens_are_words(rest@);
                    assert(is_word(fields[k + 1]));
                }
                if next[0] != '(' && !has_char(next, '@') && !has_char(next, '-') {
                    out.push(' ');
                    push_all(&mut out, next);
                }
            }
        },
        None => {},
    }
    proof {
        assert(out@ == log_entry(line@));
    }
    out
}

/// Compacts one line of `jj log` that opens an entry.
pub fn parse_log_entry(line: &str) -> (out: String)
    ensures
        out@ == log_entry(line@),
{
    let chars = chars_of(line);
    string_of(log_entry_of(chars.as_slice()).as_slice())
}

/// Whether `line` opens an entry: after the whitespace in front of it comes
/// a glyph, and a space somewhere behind.
pub open spec fn opens_entry(line: Seq<char>) -> bool {
    let t = trimmed_start(line);
    t.len() > 0 && is_glyph(t[0]) && t.contains(' ')
}

/// The description snippet that a continuation line adds to its entry, if
/// any: what the line says after its bars, cut to 50 characters. A line says
/// nothing where that is empty, holds an `@`, starts with "(empty)" or holds
/// "no description".
pub open spec fn snippet(line: Seq<char>) -> Option<Seq<char>> {
    let t = trimmed(line);
    let content = bar_content(t);
    if continues_graph(t) && content.len() > 0 && !content.contains('@') && !starts_with(
        content,
        "(empty)"@,
    ) && !contains(content, "no description"@) {
        Some(truncated(content, SNIPPET_MAX as nat))
    } else {
        None
    }
}

/// The entries after one more line: a line that opens an entry adds its row;
/// a line with a snippet appends it, after a space, to the last row.
pub open spec fn log_step(entries: Seq<Seq<char>>, line: Seq<char>) -> Seq<Seq<char>> {
    if opens_entry(line) {
        entries.push(log_entry(line))
    } else if entries.len() > 0 && snippet(line) is Some {
        entries.update(entries.len() - 1, entries.last() + seq![' '] + snippet(line).unwrap())
    } else {
        entries
    }
}

/// The rows of all entries of `lines`, in the order in which they open.
pub open spec fn log_entries(lines: Seq<Seq<char>>) -> Seq<Seq<char>>
    decreases lines.len(),
{
    if lines.len() == 0 {
        seq![]
    } else {
        log_step(log_entries(lines.drop_last()), lines.last())
    }
}

/// The rows of the first `limit` entries of a commit log.
pub open spec fn log_rows(output: Seq<char>, limit: nat) -> Seq<Seq<char>> {
    first_n(log_entries(lines(output)), limit)
}

/// No more rows are shown than the limit allows, and they are the first.
pub proof fn lemma_log_rows_within_limit(output: Seq<char>, limit: nat)
    ensures
        log_rows(output, limit).len() <= limit,
        log_rows(output, limit).is_prefix_of(log_entries(lines(output))),
{
}

/// An empty log shows "No commits".
pub proof fn lemma_empty_log(limit: nat)
    ensures
        rendered(log_rows(seq![], limit), no_commits()) == no_commits(),
{
}

/// Compacts the output of `jj log`: one row for each of the first `limit`
/// entries, or "No commits" where there is none to show.
pub fn filter_jj_log(output: &str, limit: usize) -> (out: String)
    ensures
        out@ == rendered(log_rows(output@, limit as nat), no_commits()),
        log_rows(output@, limit as nat).len() <= limit,
        tells(out@) <==> shows_telling_entry(output@, limit as nat),
{
    proof {
        lemma_log_text_tells(output@, limit as nat);
    }
    let text = chars_of(output);
    let all = split_lines(text.as_slice());
    let empty_mark = chars_of("(empty)");
    let no_description = chars_of("no description");
    let mut result: Vec<Vec<char>> = Vec::new();
    let mut current: Option<Vec<char>> = None;
    let mut i: usize = 0;
    proof {
        assert(views(all@).take(0) == Seq::<Seq<char>>::empty());
    }
    while i < all.len()
        invariant
            i <= all.len(),
            empty_mark@ == "(empty)"@,
            no_description@ == "no description"@,
            views(all@) == lines(output@),
            match current {
                Some(c) => {
                    let e = log_entries(views(all@).take(i as int));
                    e.len() > 0 && c@ == e.last() && views(result@) == first_n(
                        e.drop_last(),
                        limit as nat,
                    )
                },
                None => log_entries(views(all@).take(i as int)).len() == 0 && result@.len() == 0,
            },
        decreases all.len() - i,
    {
        let ghost e = log_entries(views(all@).take(i as int));
        proof {
            let next = views(all@).take(i + 1);
            assert(next.drop_last() == views(all@).take(i as int));
            assert(next.last() == all@[i as int]@);
        }
        let line = all[i].as_slice();
        let lead = trim_start(line);
        if lead.len() > 0 && is_glyph_char(lead[0]) && has_char(lead, ' ') {
            match current.take() {
                Some(c) => {
                    proof {
                        lemma_first_n_push(e.drop_last(), c@, limit as nat);
                        assert(e.drop_last().push(e.last()) == e);
                    }
                    if result.len() < limit {
                        let ghost kept = views(result@);
                        result.push(c);
                        proof {
                            assert(views(result@) == kept.push(c@));
                        }
                    }
                },
                None => {
                    proof {
                        assert(views(result@) == e);
                    }
                },
            }
            let row = log_entry_of(line);
            proof {
                assert(e.push(row@).drop_last() == e);
            }
            current = Some(row);
        } else {
            let t = trim(line);
            if t.len() > 0 && is_bar_char(t[0]) {
                let content = trim(strip_leading(strip_leading(t, '\u{2502}'), '|'));
                if content.len() > 0 && !has_char(content, '@') && !begins_with(
                    content,
                    empty_mark.as_slice(),
                ) && !includes(content, no_description.as_slice()) {
                    match current {
                        Some(mut c) => {
                            let cut = truncate(content, SNIPPET_MAX);
                            c.push(' ');
                            push_all(&mut c, cut.as_slice());
                            proof {
                                let longer = e.update(e.len() - 1, c@);
                                assert(longer.drop_last() == e.drop_last());
                            }
                            current = Some(c);
                        },
                        None => {},
                    }
                }
            }
        }
        i += 1;
    }
    proof {
        assert(views(all@).take(all.len() as int) == views(all@));
    }
    let ghost e = log_entries(views(all@));
    match current {
        Some(c) => {
            proof {
                lemma_first_n_push(e.drop_last(), c@, limit as nat);
                assert(e.drop_last().push(e.last()) == e);
            }
            if result.len() < limit {
                let ghost kept = views(result@);
                result.push(c);
                proof {
                    assert(views(result@) == kept.push(c@));
                }
            }
        },
        None => {
            proof {
                assert(views(result@) == e);
            }
        },
    }
    render(&result, "No commits")
}


// ---------------------------------------------------------------------------
// What a row may give away
// ---------------------------------------------------------------------------

/// Whether `t` has the shape of an email address or of a date.
pub open spec fn telling(t: Seq<char>) -> bool {
    email_shaped(t) || date_shaped(t)
}

/// Whether some token of `text` has the shape of an email address or of a
/// date.
pub open spec fn tells(text: Seq<char>) -> bool {
    exists|j: int| 0 <= j < tokens(text).len() && telling(#[trigger] tokens(text)[j])
}

/// `x` as a list of tokens: itself if it is not empty, and nothing else.
pub open spec fn as_token(x: Seq<char>) -> Seq<Seq<char>> {
    if x.len() > 0 {
        seq![x]
    } else {
        seq![]
    }
}

/// The tokens of the row of an entry: the glyph, the change id, the commit
/// id and the bookmark, as far as they are there.
pub proof fn lemma_entry_tokens(line: Seq<char>)
    ensures
        ({
            let t = trimmed(line);
            let parts = entry_fields(t);
            tokens(log_entry(line)) == as_token(entry_glyph(t)) + if parts.len() == 0 {
                seq![]
            } else {
                seq![parts[0]] + as_token(entry_commit(parts)) + as_token(entry_bookmark(parts))
            }
        }),
{
    let t = trimmed(line);
    let parts = entry_fields(t);
    let glyph = entry_glyph(t);
    let text = without_leading(
        without_leading(without_leading(without_leading(t, '@'), '\u{25cb}'), '\u{25c6}'),
        '\u{25cf}',
    );
    lemma_tokens_are_words(text);
    if glyph.len() > 0 {
        assert(is_word(glyph));
        lemma_tokens_of_word(glyph);
    } else {
        lemma_tokens_of_blank(glyph);
    }
    if parts.len() > 0 {
        let commit = entry_commit(parts);
        let bookmark = entry_bookmark(parts);
        assert(is_word(parts[0]));
        lemma_tokens_of_word(parts[0]);
        match first_short_hex(parts, 1) {
            Some(k) => {
                lemma_first_short_hex(parts, 1);
                assert(is_word(parts[k]));
                lemma_tokens_of_word(commit);
                if bookmark.len() > 0 {
                    assert(is_word(parts[k + 1]));
                    lemma_tokens_of_word(bookmark);
                }
            },
            None => {
                lemma_tokens_of_blank(commit);
            },
        }
        lemma_tokens_spaced(glyph, parts[0]);
        lemma_tokens_spaced(glyph + seq![' '] + parts[0], commit);
        if bookmark.len() > 0 {
            let head = glyph + seq![' '] + parts[0] + seq![' '] + commit;
            lemma_tokens_spaced(head, bookmark);
            assert(log_entry(line) == head + seq![' '] + bookmark);
        } else {
            let head = glyph + seq![' '] + parts[0] + seq![' '] + commit;
            assert(log_entry(line) == head);
            assert(tokens(head) + Seq::<Seq<char>>::empty() == tokens(head));
        }
    } else {
        assert(tokens(glyph) + Seq::<Seq<char>>::empty() == tokens(glyph));
    }
}

/// Where `first_short_hex` finds a token, it stands at or after `i` and is
/// a short hexadecimal token.
pub proof fn lemma_first_short_hex(parts: Seq<Seq<char>>, i: int)
    requires
        0 <= i,
    ensures
        first_short_hex(parts, i) matches Some(k) ==> i <= k < parts.len() && short_hex(parts[k]),
    decreases parts.len() - i,
{
    if i < parts.len() && !short_hex(parts[i]) {
        lemma_first_short_hex(parts, i + 1);
    }
}

/// Neither the glyph, nor the commit id, nor the bookmark of an entry has
/// the shape of an email address or of a date.
pub proof fn lemma_entry_fields_are_plain(line: Seq<char>)
    ensures
        !telling(entry_glyph(trimmed(line))),
        !telling(entry_commit(entry_fields(trimmed(line)))),
        !telling(entry_bookmark(entry_fields(trimmed(line)))),
{
    let parts = entry_fields(trimmed(line));
    let glyph = entry_glyph(trimmed(line));
    if glyph.contains('@') && glyph.contains('.') {
        let i = choose|i: int| 0 <= i < glyph.len() && glyph[i] == '@';
        let j = choose|j: int| 0 <= j < glyph.len() && glyph[j] == '.';
    }
    match first_short_hex(parts, 1) {
        Some(k) => {
            lemma_first_short_hex(parts, 1);
            lemma_short_hex_is_plain(parts[k]);
            let bookmark = entry_bookmark(parts);
            if date_shaped(bookmark) {
                assert(bookmark[4] == '-');
                assert(bookmark.contains('-'));
            }
        },
        None => {},
    }
}

/// The row of an entry tells exactly where its change id has the shape of
/// an email address or of a date.
pub proof fn lemma_entry_tells(line: Seq<char>)
    ensures
        tells(log_entry(line)) <==> entry_tells(line),
{
    let t = trimmed(line);
    let parts = entry_fields(t);
    let row = tokens(log_entry(line));
    lemma_entry_tokens(line);
    lemma_entry_fields_are_plain(line);
    let glyph = as_token(entry_glyph(t));
    let commit = as_token(entry_commit(parts));
    let bookmark = as_token(entry_bookmark(parts));
    if entry_tells(line) {
        assert(row[glyph.len() as int] == parts[0]);
        assert(telling(row[glyph.len() as int]));
    }
    if tells(log_entry(line)) {
        let j = choose|j: int| 0 <= j < row.len() && telling(#[trigger] row[j]);
        if j < glyph.len() {
            assert(row[j] == entry_glyph(t));
        } else {
            assert(parts.len() > 0);
            let k = j - glyph.len();
            if k == 0 {
                assert(row[j] == parts[0]);
            } else if k - 1 < commit.len() {
                assert(row[j] == entry_commit(parts));
            } else {
                assert(row[j] == entry_bookmark(parts));
            }
        }
    }
}

/// Whether the change id of the entry that `line` opens has the shape of an
/// email address or of a date.
pub open spec fn entry_tells(line: Seq<char>) -> bool {
    let parts = entry_fields(trimmed(line));
    parts.len() > 0 && telling(parts[0])
}

/// A snippet holds no `@`.
pub proof fn lemma_snippet_has_no_at(line: Seq<char>)
    ensures
        snippet(line) matches Some(s) ==> !s.contains('@'),
{
    if let Some(s) = snippet(line) {
        let content = bar_content(trimmed(line));
        if s.contains('@') {
            let k = choose|k: int| 0 <= k < s.len() && s[k] == '@';
            if content.len() <= SNIPPET_MAX {
                assert(content[k] == '@');
            } else {
                let kept = prefix(content, (SNIPPET_MAX - 3) as nat);
                if k < kept.len() {
                    assert(content[k] == '@');
                } else {
                    assert(s[k] == crate::text::ellipsis()[k - kept.len()]);
                }
            }
            assert(false);
        }
    }
}

/// A row with a snippet behind it tells exactly where the row or the
/// snippet does, and of a snippet only its dates tell.
pub proof fn lemma_snippet_tells(row: Seq<char>, line: Seq<char>)
    requires
        snippet(line) is Some,
    ensures
        tells(row + seq![' '] + snippet(line).unwrap()) <==> tells(row) || tells(
            snippet(line).unwrap(),
        ),
        forall|j: int|
            0 <= j < tokens(snippet(line).unwrap()).len() ==> !email_shaped(
                #[trigger] tokens(snippet(line).unwrap())[j],
            ),
{
    let s = snippet(line).unwrap();
    let both = tokens(row + seq![' '] + s);
    lemma_tokens_spaced(row, s);
    lemma_snippet_has_no_at(line);
    lemma_tokens_are_words(s);
    if tells(row) {
        let j = choose|j: int| 0 <= j < tokens(row).len() && telling(#[trigger] tokens(row)[j]);
        assert(both[j] == tokens(row)[j]);
    }
    if tells(s) {
        let j = choose|j: int| 0 <= j < tokens(s).len() && telling(#[trigger] tokens(s)[j]);
        assert(both[tokens(row).len() + j] == tokens(s)[j]);
    }
    if tells(row + seq![' '] + s) {
        let j = choose|j: int| 0 <= j < both.len() && telling(#[trigger] both[j]);
        if j < tokens(row).len() {
            assert(both[j] == tokens(row)[j]);
        } else {
            assert(both[j] == tokens(s)[j - tokens(row).len()]);
        }
    }
}

/// For each entry of `lines`, whether its change id has the shape of an
/// email address or of a date, or one of its snippets holds a token with
/// the shape of a date.
pub open spec fn telling_entries(lines: Seq<Seq<char>>) -> Seq<bool>
    decreases lines.len(),
{
    if lines.len() == 0 {
        seq![]
    } else {
        let before = telling_entries(lines.drop_last());
        let line = lines.last();
        if opens_entry(line) {
            before.push(entry_tells(line))
        } else if before.len() > 0 && snippet(line) is Some {
            before.update(before.len() - 1, before.last() || tells(snippet(line).unwrap()))
        } else {
            before
        }
    }
}

/// A row of the log holds a token with the shape of an email address or of
/// a date exactly where the change id of its entry has such a shape, or one
/// of its snippets holds a token with the shape of a date. Nothing else of
/// what the log says of a commit reaches a row in such a shape.
pub proof fn lemma_rows_tell(lines: Seq<Seq<char>>)
    ensures
        telling_entries(lines).len() == log_entries(lines).len(),
        forall|r: int|
            0 <= r < log_entries(lines).len() ==> (tells(#[trigger] log_entries(lines)[r])
                <==> telling_entries(lines)[r]),
    decreases lines.len(),
{
    if lines.len() > 0 {
        let before = lines.drop_last();
        let line = lines.last();
        lemma_rows_tell(before);
        let rows = log_entries(before);
        if opens_entry(line) {
            lemma_entry_tells(line);
        } else if rows.len() > 0 && snippet(line) is Some {
            lemma_snippet_tells(rows.last(), line);
        }
    }
}

/// No row of a compacted log, and so no line of its text, holds a token with
/// the shape of an email address or of a date, provided that no entry shown
/// has a change id of such a shape or a snippet with a token in the shape of
/// a date.
pub proof fn lemma_log_hides_mail_and_dates(output: Seq<char>, limit: nat)
    requires
        forall|r: int|
            0 <= r < log_rows(output, limit).len() ==> !(#[trigger] telling_entries(
                lines(output),
            )[r]),
    ensures
        forall|r: int|
            0 <= r < log_rows(output, limit).len() ==> !tells(#[trigger] log_rows(output, limit)[r]),
        !tells(rendered(log_rows(output, limit), no_commits())),
{
    lemma_rows_tell(lines(output));
    assert forall|r: int| 0 <= r < log_rows(output, limit).len() implies !tells(
        #[trigger] log_rows(output, limit)[r],
    ) by {
        assert(log_rows(output, limit)[r] == log_entries(lines(output))[r]);
        assert(!telling_entries(lines(output))[r]);
    }
    lemma_log_text_tells(output, limit);
}

// ---------------------------------------------------------------------------
// One row, one line
// ---------------------------------------------------------------------------

/// A word holds neither a line feed nor a carriage return.
proof fn lemma_word_is_plain(t: Seq<char>)
    requires
        t.len() == 0 || is_word(t),
    ensures
        !t.contains('\n'),
        !t.contains('\r'),
{
    if t.contains('\n') {
        let k = choose|k: int| 0 <= k < t.len() && t[k] == '\n';
        assert(is_space(t[k]));
    }
    if t.contains('\r') {
        let k = choose|k: int| 0 <= k < t.len() && t[k] == '\r';
        assert(is_space(t[k]));
    }
}

/// The row of an entry can stand on a line of its own.
pub proof fn lemma_entry_is_row(line: Seq<char>)
    requires
        opens_entry(line),
    ensures
        is_row(log_entry(line)),
{
    let lead = trimmed_start(line);
    let t = trimmed(line);
    lemma_back_span(lead, space());
    assert(t.len() > 0 && t[0] == lead[0]) by {
        if back_span(lead, space()) >= lead.len() {
            assert(is_space(lead[0]));
        }
    }
    let glyph = entry_glyph(t);
    let parts = entry_fields(t);
    let text = without_leading(
        without_leading(without_leading(without_leading(t, '@'), '\u{25cb}'), '\u{25c6}'),
        '\u{25cf}',
    );
    lemma_tokens_are_words(text);
    assert(is_word(glyph));
    lemma_word_is_plain(glyph);
    let gap = seq![' '];
    assert(!gap.contains('\n') && !gap.contains('\r')) by {
        if gap.contains('\n') {
            let k = choose|k: int| 0 <= k < gap.len() && gap[k] == '\n';
        }
        if gap.contains('\r') {
            let k = choose|k: int| 0 <= k < gap.len() && gap[k] == '\r';
        }
    }
    if parts.len() > 0 {
        let commit = entry_commit(parts);
        let bookmark = entry_bookmark(parts);
        assert(is_word(parts[0]));
        lemma_word_is_plain(parts[0]);
        match first_short_hex(parts, 1) {
            Some(k) => {
                lemma_first_short_hex(parts, 1);
                assert(is_word(parts[k]));
                if bookmark.len() > 0 {
                    assert(is_word(parts[k + 1]));
                }
            },
            None => {},
        }
        lemma_word_is_plain(commit);
        lemma_word_is_plain(bookmark);
        let a = glyph + gap;
        let b = a + parts[0];
        let c = b + gap;
        let d = c + commit;
        lemma_concat_lacks(glyph, gap, '\n');
        lemma_concat_lacks(a, parts[0], '\n');
        lemma_concat_lacks(b, gap, '\n');
        lemma_concat_lacks(c, commit, '\n');
        lemma_concat_lacks(glyph, gap, '\r');
        lemma_concat_lacks(a, parts[0], '\r');
        lemma_concat_lacks(b, gap, '\r');
        lemma_concat_lacks(c, commit, '\r');
        if bookmark.len() > 0 {
            let e = d + (gap + bookmark);
            lemma_concat_lacks(gap, bookmark, '\n');
            lemma_concat_lacks(d, gap + bookmark, '\n');
            lemma_concat_lacks(gap, bookmark, '\r');
            lemma_concat_lacks(d, gap + bookmark, '\r');
            assert(log_entry(line) == e);
        } else {
            assert(log_entry(line) == d + Seq::<char>::empty());
            assert(d + Seq::<char>::empty() == d);
        }
        let row = log_entry(line);
        if row.last() == '\r' {
            assert(row[row.len() - 1] == '\r');
            assert(row.contains('\r'));
        }
    } else {
        assert(log_entry(line) == glyph);
    }
}

/// A snippet can stand on a line of its own, where it comes from a line
/// without line feed.
pub proof fn lemma_snippet_is_row(line: Seq<char>)
    requires
        snippet(line) is Some,
        !line.contains('\n'),
    ensures
        is_row(snippet(line).unwrap()),
{
    let t = trimmed(line);
    lemma_trimmed(line);
    lemma_part_lacks(line, span(line, space()), span(line, space()) + t.len(), '\n');
    let u = without_leading(t, '\u{2502}');
    lemma_span(t, is_char('\u{2502}'));
    lemma_part_lacks(t, span(t, is_char('\u{2502}')), t.len() as int, '\n');
    let w = without_leading(u, '|');
    lemma_span(u, is_char('|'));
    lemma_part_lacks(u, span(u, is_char('|')), u.len() as int, '\n');
    let content = trimmed(w);
    lemma_trimmed(w);
    lemma_part_lacks(w, span(w, space()), span(w, space()) + content.len(), '\n');
    assert(content == bar_content(t));
    let s = snippet(line).unwrap();
    if content.len() <= SNIPPET_MAX {
        assert(s == content);
    } else {
        let kept = prefix(content, (SNIPPET_MAX - 3) as nat);
        lemma_part_lacks(content, 0, kept.len() as int, '\n');
        assert(kept == content.subrange(0, kept.len() as int));
        assert(!ellipsis().contains('\n')) by {
            if ellipsis().contains('\n') {
                let k = choose|k: int| 0 <= k < ellipsis().len() && ellipsis()[k] == '\n';
            }
        }
        lemma_concat_lacks(kept, ellipsis(), '\n');
        assert(s == kept + ellipsis());
        assert(s.last() == '.');
    }
}

/// A row with a snippet behind it can stand on a line of its own.
proof fn lemma_row_with_snippet(row: Seq<char>, s: Seq<char>)
    requires
        is_row(row),
        is_row(s),
    ensures
        is_row(row + seq![' '] + s),
{
    let gap = seq![' '];
    assert(!gap.contains('\n')) by {
        if gap.contains('\n') {
            let k = choose|k: int| 0 <= k < gap.len() && gap[k] == '\n';
        }
    }
    lemma_concat_lacks(row, gap, '\n');
    lemma_concat_lacks(row + gap, s, '\n');
    assert((row + gap + s).last() == s.last());
}

/// Every row of a log can stand on a line of its own, where the log is
/// given in lines without line feed.
pub proof fn lemma_log_entries_are_rows(lines: Seq<Seq<char>>)
    requires
        forall|i: int| 0 <= i < lines.len() ==> !(#[trigger] lines[i]).contains('\n'),
    ensures
        forall|r: int| 0 <= r < log_entries(lines).len() ==> is_row(#[trigger] log_entries(lines)[r]),
    decreases lines.len(),
{
    if lines.len() > 0 {
        let before = lines.drop_last();
        let line = lines.last();
        assert forall|i: int| 0 <= i < before.len() implies !(#[trigger] before[i]).contains(
            '\n',
        ) by {
            assert(before[i] == lines[i]);
        }
        lemma_log_entries_are_rows(before);
        let rows = log_entries(before);
        if opens_entry(line) {
            lemma_entry_is_row(line);
        } else if rows.len() > 0 && snippet(line) is Some {
            lemma_snippet_is_row(line);
            lemma_row_with_snippet(rows.last(), snippet(line).unwrap());
        }
    }
}

/// Where a compacted log shows any entry, it shows each on a line of its
/// own: the lines of the text are the rows, so there are no more lines than
/// the limit allows.
pub proof fn lemma_log_lines_are_rows(output: Seq<char>, limit: nat)
    requires
        log_rows(output, limit).len() > 0,
    ensures
        lines(rendered(log_rows(output, limit), no_commits())) == log_rows(output, limit),
        lines(rendered(log_rows(output, limit), no_commits())).len() <= limit,
{
    lemma_lines_lack_newlines(output);
    lemma_log_entries_are_rows(lines(output));
    let rows = log_rows(output, limit);
    assert forall|r: int| 0 <= r < rows.len() implies is_row(#[trigger] rows[r]) by {
        assert(rows[r] == log_entries(lines(output))[r]);
    }
    lemma_lines_of_joined(rows);
}


// ---------------------------------------------------------------------------
// What the text of a log may give away
// ---------------------------------------------------------------------------

/// Whether one of `words` has the shape of an email address or of a date.
pub open spec fn any_telling(words: Seq<Seq<char>>) -> bool {
    exists|j: int| 0 <= j < words.len() && telling(#[trigger] words[j])
}

/// Among words of two lists, one behind the other, one tells exactly where
/// one of either list does.
proof fn lemma_any_telling_of_both(a: Seq<Seq<char>>, b: Seq<Seq<char>>)
    ensures
        any_telling(a + b) <==> any_telling(a) || any_telling(b),
{
    let both = a + b;
    if any_telling(a) {
        let j = choose|j: int| 0 <= j < a.len() && telling(#[trigger] a[j]);
        assert(both[j] == a[j]);
    }
    if any_telling(b) {
        let j = choose|j: int| 0 <= j < b.len() && telling(#[trigger] b[j]);
        assert(both[a.len() + j] == b[j]);
    }
    if any_telling(both) {
        let j = choose|j: int| 0 <= j < both.len() && telling(#[trigger] both[j]);
        if j < a.len() {
            assert(both[j] == a[j]);
        } else {
            assert(both[j] == b[j - a.len()]);
        }
    }
}

/// Some token of rows taken together tells exactly where some row does.
proof fn lemma_rows_any_telling(rows: Seq<Seq<char>>)
    ensures
        any_telling(tokens_of_rows(rows)) <==> exists|r: int|
            0 <= r < rows.len() && tells(#[trigger] rows[r]),
    decreases rows.len(),
{
    if rows.len() > 0 {
        let before = rows.drop_last();
        lemma_rows_any_telling(before);
        lemma_any_telling_of_both(tokens_of_rows(before), tokens(rows.last()));
        if exists|r: int| 0 <= r < before.len() && tells(#[trigger] before[r]) {
            let r = choose|r: int| 0 <= r < before.len() && tells(#[trigger] before[r]);
            assert(before[r] == rows[r]);
        }
        if tells(rows.last()) {
            assert(tells(rows[rows.len() - 1]));
        }
        if exists|r: int| 0 <= r < rows.len() && tells(#[trigger] rows[r]) {
            let r = choose|r: int| 0 <= r < rows.len() && tells(#[trigger] rows[r]);
            if r < before.len() {
                assert(before[r] == rows[r]);
            } else {
                assert(rows[r] == rows.last());
            }
        }
    }
}

/// Rows written one per line tell exactly where one of the rows does: the
/// tokens of the text are the tokens of its rows.
pub proof fn lemma_text_tells(rows: Seq<Seq<char>>)
    ensures
        tokens(joined(rows)) == tokens_of_rows(rows),
        tells(joined(rows)) <==> exists|r: int| 0 <= r < rows.len() && tells(#[trigger] rows[r]),
{
    lemma_tokens_of_joined(rows);
    lemma_rows_any_telling(rows);
}

/// Whether one of the entries that a compacted log shows has a change id in
/// the shape of an email address or of a date, or a snippet with a token
/// in the shape of a date.
pub open spec fn shows_telling_entry(output: Seq<char>, limit: nat) -> bool {
    exists|r: int|
        0 <= r < log_rows(output, limit).len() && #[trigger] telling_entries(lines(output))[r]
}

/// "No commits" holds no token in the shape of an email address or of a
/// date.
proof fn lemma_no_commits_is_plain()
    ensures
        !tells(no_commits()),
{
    reveal_strlit("No commits");
    let no = seq!['N', 'o'];
    let commits = seq!['c', 'o', 'm', 'm', 'i', 't', 's'];
    assert(no_commits() =~= no + seq![' '] + commits);
    assert(is_word(no));
    assert(is_word(commits));
    lemma_tokens_of_word(no);
    lemma_tokens_of_word(commits);
    lemma_tokens_spaced(no, commits);
    let words = tokens(no_commits());
    assert(words =~= seq![no, commits]);
    if tells(no_commits()) {
        let j = choose|j: int| 0 <= j < words.len() && telling(#[trigger] words[j]);
        if words[j].contains('@') {
            let k = choose|k: int| 0 <= k < words[j].len() && words[j][k] == '@';
        }
        assert(false);
    }
}

/// The text of a compacted log holds a token in the shape of an email
/// address or of a date exactly where one of the entries shown has a change
/// id of such a shape, or a snippet with a token in the shape of a date.
/// Of every other log the text holds no such token.
pub proof fn lemma_log_text_tells(output: Seq<char>, limit: nat)
    ensures
        tells(rendered(log_rows(output, limit), no_commits())) <==> shows_telling_entry(
            output,
            limit,
        ),
{
    let rows = log_rows(output, limit);
    let entries = log_entries(lines(output));
    lemma_rows_tell(lines(output));
    if rows.len() == 0 {
        lemma_no_commits_is_plain();
    } else {
        lemma_text_tells(rows);
        if exists|r: int| 0 <= r < rows.len() && tells(#[trigger] rows[r]) {
            let r = choose|r: int| 0 <= r < rows.len() && tells(#[trigger] rows[r]);
            assert(rows[r] == entries[r]);
            assert(telling_entries(lines(output))[r]);
        }
        if shows_telling_entry(output, limit) {
            let r = choose|r: int|
                0 <= r < rows.len() && #[trigger] telling_entries(lines(output))[r];
            assert(rows[r] == entries[r]);
            assert(tells(rows[r]));
        }
    }
}

/// Raising the limit shows the same entries first, and more behind them.
pub proof fn lemma_log_rows_grow(output: Seq<char>, limit: nat, more: nat)
    requires
        limit <= more,
    ensures
        log_rows(output, limit).is_prefix_of(log_rows(output, more)),
{
    lemma_first_n_grows(log_entries(lines(output)), limit, more);
}

} // verus!
