//! What an invocation comes to: the text for each stream, the exit code, and
//! the sizes by which the saving is measured.

use vstd::prelude::*;
use vstd::string::StringExecFns;
use crate::diff::{compact, compacted};
use crate::jj::bookmark::{bookmark_rows, filter_bookmark_list, no_bookmarks};
use crate::jj::confirm::{confirm, confirmation, Mutation};
use crate::jj::log::{filter_jj_log, log_rows, no_commits};
use crate::jj::oplog::{filter_jj_op_log, no_operations, op_log_rows};
use crate::jj::status::{clean_working_copy, filter_jj_status, status_rows};
use crate::jj::Strategy;
use crate::number::{digits_of, push_decimal};
use crate::text::{
    begins_with, byte_len, chars_of, contains, first_n, join_rows, joined, lines, occurs_at,
    push_all, rendered, split_lines, starts_with, string_of, trim, trimmed, views,
};

verus! {

/// What one run of `jj` left behind.
pub struct RawOutput {
    /// What it wrote to standard output.
    pub stdout: String,
    /// What it wrote to standard error.
    pub stderr: String,
    /// Its exit code, where it has one.
    pub code: Option<i32>,
}

impl RawOutput {
    /// Whether the run succeeded: it ended by itself, with code 0.
    pub open spec fn succeeded(&self) -> bool {
        self.code == Some(0i32)
    }

    /// The code that a failed run hands on: its own, or 1 where it has none.
    pub open spec fn exit_code(&self) -> i32 {
        match self.code {
            Some(c) => c,
            None => 1,
        }
    }

    /// Everything the run wrote: standard output, then standard error.
    pub open spec fn combined(&self) -> Seq<char> {
        self.stdout@ + self.stderr@
    }
}

/// The sizes, in bytes, by which a saving is measured.
#[derive(Debug, Clone, Copy, PartialEq, Eq, Structural)]
pub struct Sizes {
    /// Size of what `jj` wrote.
    pub raw: usize,
    /// Size of what is shown in its place.
    pub compact: usize,
}

/// What an invocation comes to.
pub struct Outcome {
    /// The text for standard output.
    pub stdout: String,
    /// The text for standard error.
    pub stderr: String,
    /// The exit code: 0 after a success.
    pub code: i32,
    /// The sizes to record, where the invocation is recorded.
    pub sizes: Option<Sizes>,
}

/// Width to which the lines of a hunk are cut.
pub const DIFF_WIDTH: usize = 100;

/// Lines of a commit's description that are shown in front of its diff.
pub const SHOW_HEADER_LINES: usize = 5;

/// Whether `line` is where the diff of a shown commit begins.
pub open spec fn begins_diff(line: Seq<char>) -> bool {
    starts_with(line, "diff --git"@) || starts_with(line, "---"@) || starts_with(line, "+++"@)
}

/// Number of lines, counted from the `i`-th, in front of the first that
/// begins the diff.
pub open spec fn header_len(lines: Seq<Seq<char>>, i: int) -> int
    decreases lines.len() - i,
{
    if i < 0 || i >= lines.len() || begins_diff(lines[i]) {
        0
    } else {
        1 + header_len(lines, i + 1)
    }
}

/// `rows`, each followed by a line feed.
pub open spec fn terminated(rows: Seq<Seq<char>>) -> Seq<char>
    decreases rows.len(),
{
    if rows.len() == 0 {
        seq![]
    } else {
        terminated(rows.drop_last()) + rows.last() + seq!['\n']
    }
}

/// The lines of a shown commit that are kept of its description.
pub open spec fn show_header(out: Seq<char>) -> Seq<Seq<char>> {
    first_n(lines(out).take(header_len(lines(out), 0)), SHOW_HEADER_LINES as nat)
}

/// The diff of a shown commit, every line terminated.
pub open spec fn show_diff(out: Seq<char>) -> Seq<char> {
    terminated(lines(out).skip(header_len(lines(out), 0)))
}

/// The name of the subcommand in messages.
pub open spec fn name_of(strategy: Strategy) -> Seq<char> {
    match strategy {
        Strategy::Passthrough => "git"@,
        Strategy::CompactStatus => "status"@,
        Strategy::CompactLog { .. } => "log"@,
        Strategy::CompactDiff => "diff"@,
        Strategy::CompactShow => "show"@,
        Strategy::CompactOpLog { .. } => "op log"@,
        Strategy::CompactBookmarkList => "bookmark"@,
        Strategy::ConfirmationOnly(kind) => match kind {
            Mutation::Describe => "describe"@,
            Mutation::New => "new"@,
            Mutation::Squash => "squash"@,
            Mutation::Absorb => "absorb"@,
            Mutation::Rebase => "rebase"@,
            Mutation::Bookmark => "bookmark"@,
            Mutation::Push => "git push"@,
            Mutation::Fetch => "git fetch"@,
            Mutation::Undo => "undo"@,
        },
    }
}

/// The note that a verbose run adds on success.
pub open spec fn note(strategy: Strategy) -> Seq<char> {
    match strategy {
        Strategy::Passthrough => seq![],
        Strategy::CompactLog { limit } => "jj log (filtered, limit "@ + digits_of(limit as nat)
            + "):"@,
        Strategy::CompactDiff => "jj diff (compact):"@,
        Strategy::CompactShow => "jj show (compact):"@,
        Strategy::CompactBookmarkList => "jj bookmark list (filtered):"@,
        Strategy::ConfirmationOnly(Mutation::Bookmark) => "jj bookmark mutation succeeded"@,
        Strategy::ConfirmationOnly(_) => "jj "@ + name_of(strategy) + " succeeded"@,
        _ => "jj "@ + name_of(strategy) + " (filtered):"@,
    }
}

/// Whether a failure is announced by name before what the run wrote.
pub open spec fn announces_failure(strategy: Strategy) -> bool {
    strategy is ConfirmationOnly || strategy is CompactBookmarkList
}

/// What `raw` is measured by: everything it wrote where success is only
/// confirmed, its standard output else.
pub open spec fn measured_text(strategy: Strategy, raw: RawOutput) -> Seq<char> {
    if strategy is ConfirmationOnly {
        raw.combined()
    } else {
        raw.stdout@
    }
}

/// The separator between the statistics of a diff and its changes.
pub open spec fn changes_mark() -> Seq<char> {
    "\n--- Changes ---"@
}

/// The compact text that stands for the output of a successful run. `stat`
/// is what the statistics pass of a diff wrote.
pub open spec fn compact_text(strategy: Strategy, raw: RawOutput, stat: Seq<char>) -> Seq<char> {
    let out = raw.stdout@;
    match strategy {
        Strategy::Passthrough => out,
        Strategy::CompactStatus => rendered(status_rows(out), clean_working_copy()),
        Strategy::CompactLog { limit } => rendered(log_rows(out, limit as nat), no_commits()),
        Strategy::CompactOpLog { limit } => rendered(
            op_log_rows(out, limit as nat),
            no_operations(),
        ),
        Strategy::CompactBookmarkList => rendered(bookmark_rows(out), no_bookmarks()),
        Strategy::ConfirmationOnly(kind) => confirmation(kind, raw.combined()),
        Strategy::CompactDiff => stat + if out.len() == 0 {
            seq![]
        } else {
            (if trimmed(stat).len() > 0 {
                changes_mark() + seq!['\n']
            } else {
                seq![]
            }) + compacted(out, DIFF_WIDTH as nat)
        },
        Strategy::CompactShow => joined(show_header(out)) + if show_diff(out).len() == 0 {
            seq![]
        } else {
            seq!['\n'] + compacted(show_diff(out), DIFF_WIDTH as nat)
        },
    }
}

/// The text for standard output after a successful run.
pub open spec fn shown_text(strategy: Strategy, raw: RawOutput, stat: Seq<char>) -> Seq<char> {
    let out = raw.stdout@;
    match strategy {
        Strategy::Passthrough => out,
        Strategy::CompactDiff => (if trimmed(stat).len() > 0 {
            trimmed(stat) + seq!['\n']
        } else {
            seq![]
        }) + if out.len() == 0 {
            seq![]
        } else {
            (if trimmed(stat).len() > 0 {
                changes_mark() + seq!['\n']
            } else {
                seq![]
            }) + compacted(out, DIFF_WIDTH as nat) + seq!['\n']
        },
        Strategy::CompactShow => terminated(show_header(out)) + if show_diff(out).len() == 0 {
            seq![]
        } else {
            compacted(show_diff(out), DIFF_WIDTH as nat) + seq!['\n']
        },
        _ => compact_text(strategy, raw, stat) + seq!['\n'],
    }
}

/// The headline of a failure: the name of the command on a line of its own
/// where the failure is announced, and nothing else.
pub open spec fn failure_headline(strategy: Strategy) -> Seq<char> {
    if announces_failure(strategy) {
        "FAILED: jj "@ + name_of(strategy) + seq!['\n']
    } else {
        seq![]
    }
}

/// The text for standard error after a failed run. Whatever the command,
/// everything the run wrote, standard output and then standard error, goes
/// there as it came, behind the headline and before a line feed. What is
/// relayed keeps its two streams apart, so standard error gets its own.
pub open spec fn failure_text(strategy: Strategy, raw: RawOutput) -> Seq<char> {
    if strategy is Passthrough {
        raw.stderr@
    } else {
        failure_headline(strategy) + raw.combined() + seq!['\n']
    }
}

/// After a failure of anything that is not relayed, standard error holds
/// all that the run wrote, unchanged and in one piece.
pub proof fn lemma_failure_holds_output(strategy: Strategy, raw: RawOutput)
    requires
        !(strategy is Passthrough),
    ensures
        occurs_at(
            failure_text(strategy, raw),
            raw.combined(),
            failure_headline(strategy).len() as int,
        ),
        contains(failure_text(strategy, raw), raw.combined()),
{
    let head = failure_headline(strategy);
    let text = failure_text(strategy, raw);
    assert(text.subrange(head.len() as int, head.len() as int + raw.combined().len())
        == raw.combined());
    assert(occurs_at(text, raw.combined(), head.len() as int));
}

/// The text for standard error after a successful run.
pub open spec fn success_note(strategy: Strategy, raw: RawOutput, verbose: bool) -> Seq<char> {
    if strategy is Passthrough {
        raw.stderr@
    } else if verbose {
        note(strategy) + seq!['\n']
    } else {
        seq![]
    }
}

fn name(strategy: Strategy) -> (out: &'static str)
    ensures
        out@ == name_of(strategy),
{
    match strategy {
        Strategy::Passthrough => "git",
        Strategy::CompactStatus => "status",
        Strategy::CompactLog { .. } => "log",
        Strategy::CompactDiff => "diff",
        Strategy::CompactShow => "show",
        Strategy::CompactOpLog { .. } => "op log",
        Strategy::CompactBookmarkList => "bookmark",
        Strategy::ConfirmationOnly(kind) => match kind {
            Mutation::Describe => "describe",
            Mutation::New => "new",
            Mutation::Squash => "squash",
            Mutation::Absorb => "absorb",
            Mutation::Rebase => "rebase",
            Mutation::Bookmark => "bookmark",
            Mutation::Push => "git push",
            Mutation::Fetch => "git fetch",
            Mutation::Undo => "undo",
        },
    }
}

fn note_of(strategy: Strategy) -> (out: String)
    ensures
        out@ == note(strategy),
{
    let mut out = String::new();
    match strategy {
        Strategy::Passthrough => {},
        Strategy::CompactLog { limit } => {
            let mut text = chars_of("jj log (filtered, limit ");
            push_decimal(&mut text, limit);
            push_all(&mut text, chars_of("):").as_slice());
            out = string_of(text.as_slice());
        },
        Strategy::CompactDiff => {
            out.append("jj diff (compact):");
        },
        Strategy::CompactShow => {
            out.append("jj show (compact):");
        },
        Strategy::CompactBookmarkList => {
            out.append("jj bookmark list (filtered):");
        },
        Strategy::ConfirmationOnly(Mutation::Bookmark) => {
            out.append("jj bookmark mutation succeeded");
        },
        Strategy::ConfirmationOnly(_) => {
            out.append("jj ");
            out.append(name(strategy));
            out.append(" succeeded");
        },
        _ => {
            out.append("jj ");
            out.append(name(strategy));
            out.append(" (filtered):");
        },
    }
    out
}

fn failure_of(strategy: Strategy, raw: &RawOutput) -> (out: String)
    ensures
        out@ == failure_text(strategy, *raw),
{
    let mut out = String::new();
    match strategy {
        Strategy::Passthrough => {
            out.append(raw.stderr.as_str());
            return out;
        },
        Strategy::ConfirmationOnly(_) | Strategy::CompactBookmarkList => {
            out.append("FAILED: jj ");
            out.append(name(strategy));
            out.push('\n');
        },
        _ => {},
    }
    let ghost head = out@;
    out.append(raw.stdout.as_str());
    out.append(raw.stderr.as_str());
    out.push('\n');
    proof {
        assert(head == failure_headline(strategy));
        assert(out@ == head + (raw.stdout@ + raw.stderr@) + seq!['\n']);
    }
    out
}

fn terminate(rows: &[Vec<char>]) -> (out: Vec<char>)
    ensures
        out@ == terminated(views(rows@)),
{
    let mut out: Vec<char> = Vec::new();
    let mut i: usize = 0;
    while i < rows.len()
        invariant
            i <= rows.len(),
            out@ == terminated(views(rows@).take(i as int)),
        decreases rows.len() - i,
    {
        proof {
            let next = views(rows@).take(i + 1);
            assert(next.drop_last() == views(rows@).take(i as int));
            assert(next.last() == rows@[i as int]@);
        }
        push_all(&mut out, rows[i].as_slice());
        out.push('\n');
        i += 1;
    }
    proof {
        assert(views(rows@).take(rows.len() as int) == views(rows@));
    }
    out
}

fn is_diff_start(line: &[char]) -> (b: bool)
    ensures
        b == begins_diff(line@),
{
    begins_with(line, chars_of("diff --git").as_slice()) || begins_with(
        line,
        chars_of("---").as_slice(),
    ) || begins_with(line, chars_of("+++").as_slice())
}

/// The text to show and the compact text for a shown commit.
fn show_texts(raw: &RawOutput) -> (r: (String, String))
    ensures
        r.0@ == shown_text(Strategy::CompactShow, *raw, seq![]),
        r.1@ == compact_text(Strategy::CompactShow, *raw, seq![]),
{
    let text = chars_of(raw.stdout.as_str());
    let mut all = split_lines(text.as_slice());
    let ghost every = views(all@);
    let mut h: usize = 0;
    while h < all.len() && !is_diff_start(all[h].as_slice())
        invariant
            h <= all.len(),
            views(all@) == lines(raw.stdout@),
            header_len(lines(raw.stdout@), 0) == h + header_len(lines(raw.stdout@), h as int),
        decreases all.len() - h,
    {
        proof {
            assert(lines(raw.stdout@)[h as int] == all@[h as int]@);
        }
        h += 1;
    }
    proof {
        if h < all.len() {
            assert(lines(raw.stdout@)[h as int] == all@[h as int]@);
        }
    }
    let tail = all.split_off(h);
    proof {
        assert(views(tail@) == every.skip(h as int));
        assert(views(all@) == every.take(h as int));
    }
    if all.len() > SHOW_HEADER_LINES {
        all.truncate(SHOW_HEADER_LINES);
        proof {
            assert(views(all@) == every.take(h as int).take(SHOW_HEADER_LINES as int));
        }
    }
    let diff = terminate(tail.as_slice());
    let mut shown = terminate(all.as_slice());
    let mut short = join_rows(&all);
    if diff.len() > 0 {
        let cut = compact(diff.as_slice(), DIFF_WIDTH);
        push_all(&mut shown, cut.as_slice());
        shown.push('\n');
        short.push('\n');
        push_all(&mut short, cut.as_slice());
        proof {
            assert(short@ == joined(show_header(raw.stdout@)) + (seq!['\n'] + cut@));
            assert(shown@ == terminated(show_header(raw.stdout@)) + (cut@ + seq!['\n']));
        }
    }
    (string_of(shown.as_slice()), string_of(short.as_slice()))
}

/// The text to show and the compact text for a diff.
fn diff_texts(raw: &RawOutput, stat: &str) -> (r: (String, String))
    ensures
        r.0@ == shown_text(Strategy::CompactDiff, *raw, stat@),
        r.1@ == compact_text(Strategy::CompactDiff, *raw, stat@),
{
    let stat_text = chars_of(stat);
    let summary = trim(stat_text.as_slice());
    let out = chars_of(raw.stdout.as_str());
    let mut shown: Vec<char> = Vec::new();
    let mut short = chars_of(stat);
    if summary.len() > 0 {
        push_all(&mut shown, summary);
        shown.push('\n');
    }
    if out.len() > 0 {
        let ghost shown_head = shown@;
        let ghost mark = if summary@.len() > 0 {
            changes_mark() + seq!['\n']
        } else {
            Seq::<char>::empty()
        };
        if summary.len() > 0 {
            let mark_text = chars_of("\n--- Changes ---");
            push_all(&mut shown, mark_text.as_slice());
            shown.push('\n');
            push_all(&mut short, mark_text.as_slice());
            short.push('\n');
        }
        let cut = compact(out.as_slice(), DIFF_WIDTH);
        push_all(&mut shown, cut.as_slice());
        shown.push('\n');
        push_all(&mut short, cut.as_slice());
        proof {
            assert(shown@ == shown_head + (mark + cut@ + seq!['\n']));
            assert(short@ == stat@ + (mark + cut@));
        }
    }
    (string_of(shown.as_slice()), string_of(short.as_slice()))
}

/// The sizes to record for an invocation: none after a failure, zeros for
/// what is relayed, and else the sizes in bytes of what `jj` wrote and of
/// the compact text.
pub open spec fn sizes_for(strategy: Strategy, raw: RawOutput, stat: Seq<char>) -> Option<Sizes> {
    if strategy is Passthrough {
        Some(Sizes { raw: 0, compact: 0 })
    } else if raw.succeeded() {
        Some(
            Sizes {
                raw: byte_len(measured_text(strategy, raw)) as usize,
                compact: byte_len(compact_text(strategy, raw, stat)) as usize,
            },
        )
    } else {
        None
    }
}

/// Turns what a run of `jj` left behind into what is shown.
///
/// After a success the compact form of the output goes to standard output,
/// and the code is 0. After a failure nothing is compacted: standard error
/// gets all that the run wrote, standard output and then standard error,
/// standard output gets nothing, and the code is that of the run, or 1
/// where it has none. What is relayed goes to both streams as it came,
/// whatever the code. `stat` is what the statistics pass of a diff wrote; other
/// strategies do not look at it.
pub fn summarize(strategy: Strategy, raw: &RawOutput, stat: &str, verbose: bool) -> (out: Outcome)
    ensures
        out.code == (if raw.succeeded() {
            0i32
        } else {
            raw.exit_code()
        }),
        out.stdout@ == (if raw.succeeded() {
            shown_text(strategy, *raw, stat@)
        } else if strategy is Passthrough {
            raw.stdout@
        } else {
            seq![]
        }),
        out.stderr@ == (if raw.succeeded() {
            success_note(strategy, *raw, verbose)
        } else {
            failure_text(strategy, *raw)
        }),
        out.sizes == sizes_for(strategy, *raw, stat@),
{
    let succeeded = match raw.code {
        Some(c) => c == 0,
        None => false,
    };
    if !succeeded {
        let code = match raw.code {
            Some(c) => c,
            None => 1,
        };
        let relayed = matches!(strategy, Strategy::Passthrough);
        return Outcome {
            stdout: if relayed {
                raw.stdout.clone()
            } else {
                String::new()
            },
            stderr: failure_of(strategy, raw),
            code,
            sizes: if relayed {
                Some(Sizes { raw: 0, compact: 0 })
            } else {
                None
            },
        };
    }
    if matches!(strategy, Strategy::Passthrough) {
        return Outcome {
            stdout: raw.stdout.clone(),
            stderr: raw.stderr.clone(),
            code: 0,
            sizes: Some(Sizes { raw: 0, compact: 0 }),
        };
    }
    let mut stderr = String::new();
    if verbose {
        stderr = note_of(strategy);
        stderr.push('\n');
    }
    let mut measured = raw.stdout.clone();
    let (stdout, short) = match strategy {
        Strategy::CompactDiff => diff_texts(raw, stat),
        Strategy::CompactShow => show_texts(raw),
        _ => {
            let short = match strategy {
                Strategy::CompactStatus => filter_jj_status(raw.stdout.as_str()),
                Strategy::CompactLog { limit } => filter_jj_log(raw.stdout.as_str(), limit),
                Strategy::CompactOpLog { limit } => filter_jj_op_log(raw.stdout.as_str(), limit),
                Strategy::CompactBookmarkList => filter_bookmark_list(raw.stdout.as_str()),
                Strategy::ConfirmationOnly(kind) => {
                    measured.append(raw.stderr.as_str());
                    confirm(kind, measured.as_str())
                },
                _ => String::new(),
            };
            let mut stdout = short.clone();
            stdout.push('\n');
            (stdout, short)
        },
    };
    Outcome {
        stdout,
        stderr,
        code: 0,
        sizes: Some(Sizes { raw: measured.as_str().len(), compact: short.as_str().len() }),
    }
}

} // verus!
