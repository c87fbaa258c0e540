//! The operation log: one row per operation, with its short id, a short
//! relative time and the command that caused it.

use vstd::prelude::*;
use vstd::slice::slice_to_vec;
use crate::classify::{is_bar, is_bar_char};
use crate::jj::reltime::{lemma_relative_time_is_plain, relative_time, relative_time_of};
use crate::text::{
    begins_with, chars_of, first_n, is_char, is_row, is_space, is_word, lemma_concat_lacks,
    lemma_first_n_grows, lemma_first_n_push, lemma_lines_lack_newlines, lemma_lines_of_joined,
    lemma_part_lacks, lemma_span, lemma_tokens_are_words, lemma_trimmed,
    lemma_truncated_is_row, lemma_without_prefixes_lacks, lines, prefix, push_all, render,
    rendered, space, span, split_lines, split_tokens, starts_with, strip_leading,
    strip_prefixes, take_prefix, tokens, trim, trimmed, truncate, truncated, views,
    without_leading, without_prefixes,
};

verus! {

/// What is shown when the log holds no operation.
pub open spec fn no_operations() -> Seq<char> {
    "No operations"@
}

/// What the scan of an operation log knows after some of its lines.
pub struct OpScan {
    /// The rows of the operations that are complete.
    pub rows: Seq<Seq<char>>,
    /// The glyph of the operation being read.
    pub graph: Seq<char>,
    /// Its id, cut to seven characters; empty where there is no operation,
    /// or none with an id.
    pub id: Seq<char>,
    /// Its relative time.
    pub time: Seq<char>,
    /// Its description; empty until one was read.
    pub what: Seq<char>,
}

/// Whether a trimmed line opens an operation: it starts with `@` or with the
/// open circle.
pub open spec fn opens_operation(t: Seq<char>) -> bool {
    t.len() > 0 && (t[0] == '@' || t[0] == '\u{25cb}')
}

/// Whether a trimmed line continues the graph: it starts with a vertical bar.
pub open spec fn continues_graph(t: Seq<char>) -> bool {
    t.len() > 0 && is_bar(t[0])
}

/// What a continuation line says, without the bars in front of it.
pub open spec fn bar_content(t: Seq<char>) -> Seq<char> {
    trimmed(without_leading(without_leading(t, '\u{2502}'), '|'))
}

/// The row of the operation being read.
pub open spec fn op_row(st: OpScan) -> Seq<char> {
    st.graph + seq![' '] + st.id + seq![' '] + st.time + seq![' '] + st.what
}

/// The complete rows together with the operation being read, if there is
/// one and it has an id.
pub open spec fn op_rows_of(st: OpScan) -> Seq<Seq<char>> {
    if st.id.len() > 0 {
        st.rows.push(op_row(st))
    } else {
        st.rows
    }
}

/// The scan after one more line.
///
/// A line that opens an operation completes the one before it and starts
/// anew, with the fields of its own line; where it has no second token, the
/// operation has no id, and is not shown. A
/// continuation line gives the description: one that starts with `args:`
/// always, any other only while there is none and cut to 30 characters.
pub open spec fn op_step(st: OpScan, line: Seq<char>) -> OpScan {
    let t = trimmed(line);
    if opens_operation(t) {
        let parts = tokens(t);
        OpScan {
            rows: op_rows_of(st),
            graph: seq![t[0]],
            id: if parts.len() >= 2 {
                prefix(parts[1], 7)
            } else {
                seq![]
            },
            time: relative_time(t),
            what: seq![],
        }
    } else if continues_graph(t) {
        let content = bar_content(t);
        if starts_with(content, "args:"@) {
            OpScan { what: trimmed(without_prefixes(content, "args:"@)), ..st }
        } else if st.what.len() == 0 && content.len() > 0 {
            OpScan { what: truncated(content, 30), ..st }
        } else {
            st
        }
    } else {
        st
    }
}

/// The scan after all of `lines`.
pub open spec fn op_scan(lines: Seq<Seq<char>>) -> OpScan
    decreases lines.len(),
{
    if lines.len() == 0 {
        OpScan { rows: seq![], graph: seq![], id: seq![], time: seq![], what: seq![] }
    } else {
        op_step(op_scan(lines.drop_last()), lines.last())
    }
}

/// The rows of the first `limit` operations of an operation log.
pub open spec fn op_log_rows(output: Seq<char>, limit: nat) -> Seq<Seq<char>> {
    first_n(op_rows_of(op_scan(lines(output))), limit)
}

/// No more rows are shown than the limit allows, and they are the first.
pub proof fn lemma_op_log_rows_within_limit(output: Seq<char>, limit: nat)
    ensures
        op_log_rows(output, limit).len() <= limit,
        op_log_rows(output, limit).is_prefix_of(op_rows_of(op_scan(lines(output)))),
{
}

/// An empty operation log shows "No operations".
pub proof fn lemma_empty_op_log(limit: nat)
    ensures
        rendered(op_log_rows(seq![], limit), no_operations()) == no_operations(),
{
}

/// Compacts the output of `jj op log`: one row for each of the first `limit`
/// operations, or "No operations" where there is none to show.
pub fn filter_jj_op_log(output: &str, limit: usize) -> (out: String)
    ensures
        out@ == rendered(op_log_rows(output@, limit as nat), no_operations()),
        op_log_rows(output@, limit as nat).len() <= limit,
{
    let text = chars_of(output);
    let all = split_lines(text.as_slice());
    let args = chars_of("args:");
    let mut result: Vec<Vec<char>> = Vec::new();
    let mut graph: Vec<char> = Vec::new();
    let mut id: Vec<char> = Vec::new();
    let mut time: Vec<char> = Vec::new();
    let mut what: Vec<char> = Vec::new();
    let mut i: usize = 0;
    proof {
        assert(views(all@).take(0) == Seq::<Seq<char>>::empty());
    }
    while i < all.len()
        invariant
            i <= all.len(),
            args@ == "args:"@,
            views(all@) == lines(output@),
            views(result@) == first_n(op_scan(views(all@).take(i as int)).rows, limit as nat),
            graph@ == op_scan(views(all@).take(i as int)).graph,
            id@ == op_scan(views(all@).take(i as int)).id,
            time@ == op_scan(views(all@).take(i as int)).time,
            what@ == op_scan(views(all@).take(i as int)).what,
        decreases all.len() - i,
    {
        let ghost before = op_scan(views(all@).take(i as int));
        proof {
            let next = views(all@).take(i + 1);
            assert(next.drop_last() == views(all@).take(i as int));
            assert(next.last() == all@[i as int]@);
        }
        let t = trim(all[i].as_slice());
        if t.len() > 0 && (t[0] == '@' || t[0] == '\u{25cb}') {
            if id.len() > 0 {
                let row = op_row_of(&graph, &id, &time, &what);
                proof {
                    lemma_first_n_push(before.rows, row@, limit as nat);
                }
                if result.len() < limit {
                    let ghost kept = views(result@);
                    result.push(row);
                    proof {
                        assert(views(result@) == kept.push(row@));
                    }
                }
            }
            let parts = split_tokens(t);
            graph = Vec::new();
            graph.push(t[0]);
            if parts.len() >= 2 {
                proof {
                    assert(tokens(t@)[1] == parts@[1]@);
                }
                id = slice_to_vec(take_prefix(parts[1].as_slice(), 7));
            } else {
                id = Vec::new();
            }
            time = relative_time_of(t);
            what = Vec::new();
        } else if t.len() > 0 && is_bar_char(t[0]) {
            let content = trim(strip_leading(strip_leading(t, '\u{2502}'), '|'));
            if begins_with(content, args.as_slice()) {
                what = slice_to_vec(trim(strip_prefixes(content, args.as_slice())));
            } else if what.len() == 0 && content.len() > 0 {
                what = truncate(content, 30);
            }
        }
        i += 1;
    }
    proof {
        assert(views(all@).take(all.len() as int) == views(all@));
    }
    if id.len() > 0 {
        let row = op_row_of(&graph, &id, &time, &what);
        proof {
            lemma_first_n_push(op_scan(views(all@)).rows, row@, limit as nat);
        }
        if result.len() < limit {
            let ghost kept = views(result@);
            result.push(row);
            proof {
                assert(views(result@) == kept.push(row@));
            }
        }
    }
    render(&result, "No operations")
}

fn op_row_of(graph: &Vec<char>, id: &Vec<char>, time: &Vec<char>, what: &Vec<char>) -> (row: Vec<
    char,
>)
    ensures
        row@ == graph@ + seq![' '] + id@ + seq![' '] + time@ + seq![' '] + what@,
{
    let mut row: Vec<char> = Vec::new();
    push_all(&mut row, graph.as_slice());
    row.push(' ');
    push_all(&mut row, id.as_slice());
    row.push(' ');
    push_all(&mut row, time.as_slice());
    row.push(' ');
    push_all(&mut row, what.as_slice());
    row
}


// ---------------------------------------------------------------------------
// One row, one line
// ---------------------------------------------------------------------------

/// What a continuation line says holds no line feed and does not end in
/// whitespace, where the line holds no line feed.
proof fn lemma_bar_content(line: Seq<char>)
    requires
        !line.contains('\n'),
    ensures
        !trimmed(line).contains('\n'),
        !bar_content(trimmed(line)).contains('\n'),
        bar_content(trimmed(line)).len() > 0 ==> !is_space(bar_content(trimmed(line)).last()),
{
    let t = trimmed(line);
    lemma_trimmed(line);
    lemma_part_lacks(line, span(line, space()), span(line, space()) + t.len(), '\n');
    let u = without_leading(t, '\u{2502}');
    lemma_span(t, is_char('\u{2502}'));
    lemma_part_lacks(t, span(t, is_char('\u{2502}')), t.len() as int, '\n');
    let w = without_leading(u, '|');
    lemma_span(u, is_char('|'));
    lemma_part_lacks(u, span(u, is_char('|')), u.len() as int, '\n');
    lemma_trimmed(w);
    lemma_part_lacks(w, span(w, space()), span(w, space()) + trimmed(w).len(), '\n');
}

/// Whether the fields of a scan hold no line feed, its description does not
/// end in a carriage return, and its complete rows can each stand on a line
/// of its own.
pub open spec fn tidy(st: OpScan) -> bool {
    &&& forall|r: int| 0 <= r < st.rows.len() ==> is_row(#[trigger] st.rows[r])
    &&& st.id.len() > 0 ==> st.graph.len() == 1
    &&& !st.graph.contains('\n')
    &&& !st.id.contains('\n')
    &&& !st.time.contains('\n')
    &&& !st.what.contains('\n')
    &&& st.what.len() > 0 ==> st.what.last() != '\r'
}

/// The row of the operation being read can stand on a line of its own.
proof fn lemma_op_row_is_row(st: OpScan)
    requires
        tidy(st),
        st.id.len() > 0,
    ensures
        is_row(op_row(st)),
{
    let gap = seq![' '];
    assert(!gap.contains('\n')) by {
        if gap.contains('\n') {
            let k = choose|k: int| 0 <= k < gap.len() && gap[k] == '\n';
        }
    }
    let a = st.graph + gap;
    let b = a + st.id;
    let c = b + gap;
    let d = c + st.time;
    let e = d + gap;
    lemma_concat_lacks(st.graph, gap, '\n');
    lemma_concat_lacks(a, st.id, '\n');
    lemma_concat_lacks(b, gap, '\n');
    lemma_concat_lacks(c, st.time, '\n');
    lemma_concat_lacks(d, gap, '\n');
    lemma_concat_lacks(e, st.what, '\n');
    let row = op_row(st);
    assert(row == e + st.what);
    if st.what.len() > 0 {
        assert(row.last() == st.what.last());
    } else {
        assert(row.last() == ' ');
    }
}

/// The complete rows together with the operation being read can each stand
/// on a line of its own.
proof fn lemma_op_rows_are_rows(st: OpScan)
    requires
        tidy(st),
    ensures
        forall|r: int| 0 <= r < op_rows_of(st).len() ==> is_row(#[trigger] op_rows_of(st)[r]),
{
    if st.id.len() > 0 {
        lemma_op_row_is_row(st);
        assert forall|r: int| 0 <= r < op_rows_of(st).len() implies is_row(
            #[trigger] op_rows_of(st)[r],
        ) by {
            if r < st.rows.len() {
                assert(op_rows_of(st)[r] == st.rows[r]);
            }
        }
    }
}

/// A scan stays tidy over a line without line feed.
proof fn lemma_op_step_is_tidy(st: OpScan, line: Seq<char>)
    requires
        tidy(st),
        !line.contains('\n'),
    ensures
        tidy(op_step(st, line)),
{
    let t = trimmed(line);
    lemma_bar_content(line);
    if opens_operation(t) {
        let parts = tokens(t);
        lemma_op_rows_are_rows(st);
        lemma_relative_time_is_plain(t);
        let graph = seq![t[0]];
        assert(!graph.contains('\n')) by {
            if graph.contains('\n') {
                let k = choose|k: int| 0 <= k < graph.len() && graph[k] == '\n';
            }
        }
        if parts.len() >= 2 {
            lemma_tokens_are_words(t);
            let word = parts[1];
            assert(is_word(word));
            assert(!word.contains('\n')) by {
                if word.contains('\n') {
                    let k = choose|k: int| 0 <= k < word.len() && word[k] == '\n';
                    assert(is_space(word[k]));
                }
            }
            let id = prefix(word, 7);
            assert(id == word.subrange(0, id.len() as int));
            lemma_part_lacks(word, 0, id.len() as int, '\n');
        }
        let none = Seq::<char>::empty();
        assert(!none.contains('\n'));
    } else if continues_graph(t) {
        let content = bar_content(t);
        if starts_with(content, "args:"@) {
            let rest = without_prefixes(content, "args:"@);
            lemma_without_prefixes_lacks(content, "args:"@, '\n');
            lemma_trimmed(rest);
            lemma_part_lacks(
                rest,
                span(rest, space()),
                span(rest, space()) + trimmed(rest).len(),
                '\n',
            );
        } else if st.what.len() == 0 && content.len() > 0 {
            lemma_truncated_is_row(content, 30);
        }
    }
}

/// A scan of lines without line feed is tidy.
proof fn lemma_op_scan_is_tidy(lines: Seq<Seq<char>>)
    requires
        forall|i: int| 0 <= i < lines.len() ==> !(#[trigger] lines[i]).contains('\n'),
    ensures
        tidy(op_scan(lines)),
    decreases lines.len(),
{
    if lines.len() > 0 {
        let before = lines.drop_last();
        assert forall|i: int| 0 <= i < before.len() implies !(#[trigger] before[i]).contains(
            '\n',
        ) by {
            assert(before[i] == lines[i]);
        }
        lemma_op_scan_is_tidy(before);
        lemma_op_step_is_tidy(op_scan(before), lines.last());
    } else {
        let none = Seq::<char>::empty();
        assert(!none.contains('\n'));
    }
}

/// Where a compacted operation log shows any operation, it shows each on a
/// line of its own: the lines of the text are the rows, so there are no
/// more lines than the limit allows.
pub proof fn lemma_op_log_lines_are_rows(output: Seq<char>, limit: nat)
    requires
        op_log_rows(output, limit).len() > 0,
    ensures
        lines(rendered(op_log_rows(output, limit), no_operations())) == op_log_rows(
            output,
            limit,
        ),
        lines(rendered(op_log_rows(output, limit), no_operations())).len() <= limit,
{
    lemma_lines_lack_newlines(output);
    lemma_op_scan_is_tidy(lines(output));
    lemma_op_rows_are_rows(op_scan(lines(output)));
    let rows = op_log_rows(output, limit);
    assert forall|r: int| 0 <= r < rows.len() implies is_row(#[trigger] rows[r]) by {
        assert(rows[r] == op_rows_of(op_scan(lines(output)))[r]);
    }
    lemma_lines_of_joined(rows);
}

/// Raising the limit shows the same operations first, and more behind them.
pub proof fn lemma_op_log_rows_grow(output: Seq<char>, limit: nat, more: nat)
    requires
        limit <= more,
    ensures
        op_log_rows(output, limit).is_prefix_of(op_log_rows(output, more)),
{
    lemma_first_n_grows(op_rows_of(op_scan(lines(output))), limit, more);
}

} // verus!
