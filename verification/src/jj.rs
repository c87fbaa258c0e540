//! Compact summaries of the output of the `jj` version-control tool.
//!
//! [`run`] plans an invocation: which arguments `jj` gets and how its output
//! is to be compacted. [`outcome::summarize`] then turns the captured output
//! into what is shown. Running `jj` lies between the two and is left to the
//! caller.

use vstd::prelude::*;
use crate::jj::confirm::Mutation;
use crate::text::{chars_of, join_words, push_all, same_text, spaced, string_of, texts};

pub mod bookmark;
pub mod confirm;
pub mod log;
pub mod oplog;
pub mod outcome;
pub mod reltime;
pub mod status;

pub use bookmark::filter_bookmark_list;
pub use confirm::{
    count_absorbed_changes, count_fetched_refs, extract_change_id, extract_pushed_bookmark,
    extract_rebased_count,
};
pub use log::{filter_jj_log, parse_log_entry, truncate_message};
pub use oplog::filter_jj_op_log;
pub use reltime::extract_relative_time;
pub use status::{filter_jj_status, parse_commit_line};

verus! {

/// The `jj` commands that have a compact form.
#[derive(Debug, Clone, Copy)]
pub enum JjCommand {
    /// Show working copy status
    Status,
    /// Show commit log
    Log { limit: Option<usize> },
    /// Show diff
    Diff,
    /// Show commit details
    Show,
    /// Set commit message
    Describe,
    /// Create new commit
    New,
    /// Squash changes into parent
    Squash,
    /// Auto-distribute changes to ancestors
    Absorb,
    /// Rebase commits
    Rebase,
    /// Bookmark operations
    Bookmark,
    /// Git operations (push, fetch, clone)
    Git,
    /// Operation log
    OpLog,
    /// Undo last operation
    Undo,
}

/// How the output of an invocation becomes what is shown.
#[derive(Debug, Clone, Copy, PartialEq, Eq, Structural)]
pub enum Strategy {
    /// The output is relayed as it is.
    Passthrough,
    /// The output is a working-copy status.
    CompactStatus,
    /// The output is a commit log, of which `limit` entries are shown.
    CompactLog { limit: usize },
    /// The output is a diff, shown after its statistics.
    CompactDiff,
    /// The output is the description of a commit followed by its diff.
    CompactShow,
    /// The output is an operation log, of which `limit` entries are shown.
    CompactOpLog { limit: usize },
    /// The output is a list of bookmarks.
    CompactBookmarkList,
    /// Success is confirmed in one line.
    ConfirmationOnly(Mutation),
}

/// Entries of a commit log that are shown where no limit is asked for.
pub const DEFAULT_LOG_LIMIT: usize = 5;

/// Entries of an operation log that are shown.
pub const OP_LOG_LIMIT: usize = 5;

/// An invocation of `jj`, planned.
pub struct Plan {
    /// How the output is treated.
    pub strategy: Strategy,
    /// The arguments for `jj`.
    pub argv: Vec<String>,
    /// The arguments for the pass that collects statistics first; empty
    /// where there is no such pass.
    pub stat_argv: Vec<String>,
    /// Whether the output is captured. Where it is not, `jj` writes to the
    /// terminal itself and nothing is measured.
    pub captured: bool,
    /// The command as the user could have typed it.
    pub command: String,
    /// The command as it was run through this tool.
    pub rewritten: String,
    /// Whether notes on what was done are wanted.
    pub verbose: bool,
}

/// Whether `arg` asks `jj bookmark` for a change.
pub open spec fn is_bookmark_verb(arg: Seq<char>) -> bool {
    arg == "set"@ || arg == "delete"@ || arg == "create"@ || arg == "move"@ || arg == "rename"@
        || arg == "-d"@ || arg == "--delete"@
}

/// Whether the arguments of `jj bookmark` ask for a change rather than for
/// the list.
pub open spec fn changes_bookmarks(args: Seq<Seq<char>>) -> bool {
    exists|i: int| 0 <= i < args.len() && is_bookmark_verb(#[trigger] args[i])
}

/// Whether the first argument is `word`.
pub open spec fn first_is(args: Seq<Seq<char>>, word: Seq<char>) -> bool {
    args.len() > 0 && args[0] == word
}

/// The strategy for a command and its arguments.
pub open spec fn strategy_for(cmd: JjCommand, args: Seq<Seq<char>>) -> Strategy {
    match cmd {
        JjCommand::Status => Strategy::CompactStatus,
        JjCommand::Log { limit } => Strategy::CompactLog {
            limit: match limit {
                Some(n) => n,
                None => DEFAULT_LOG_LIMIT,
            },
        },
        JjCommand::Diff => Strategy::CompactDiff,
        JjCommand::Show => Strategy::CompactShow,
        JjCommand::Describe => Strategy::ConfirmationOnly(Mutation::Describe),
        JjCommand::New => Strategy::ConfirmationOnly(Mutation::New),
        JjCommand::Squash => Strategy::ConfirmationOnly(Mutation::Squash),
        JjCommand::Absorb => Strategy::ConfirmationOnly(Mutation::Absorb),
        JjCommand::Rebase => Strategy::ConfirmationOnly(Mutation::Rebase),
        JjCommand::Bookmark => if changes_bookmarks(args) {
            Strategy::ConfirmationOnly(Mutation::Bookmark)
        } else {
            Strategy::CompactBookmarkList
        },
        JjCommand::Git => if first_is(args, "push"@) {
            Strategy::ConfirmationOnly(Mutation::Push)
        } else if first_is(args, "fetch"@) {
            Strategy::ConfirmationOnly(Mutation::Fetch)
        } else {
            Strategy::Passthrough
        },
        JjCommand::OpLog => Strategy::CompactOpLog { limit: OP_LOG_LIMIT },
        JjCommand::Undo => Strategy::ConfirmationOnly(Mutation::Undo),
    }
}

/// The words that name the subcommand to `jj`.
pub open spec fn subcommand(cmd: JjCommand, args: Seq<Seq<char>>) -> Seq<Seq<char>> {
    match cmd {
        JjCommand::Status => seq!["status"@],
        JjCommand::Log { .. } => seq!["log"@],
        JjCommand::Diff => seq!["diff"@],
        JjCommand::Show => seq!["show"@],
        JjCommand::Describe => seq!["describe"@],
        JjCommand::New => seq!["new"@],
        JjCommand::Squash => seq!["squash"@],
        JjCommand::Absorb => seq!["absorb"@],
        JjCommand::Rebase => seq!["rebase"@],
        JjCommand::Bookmark => seq!["bookmark"@],
        JjCommand::Git => if first_is(args, "push"@) {
            seq!["git"@, "push"@]
        } else if first_is(args, "fetch"@) {
            seq!["git"@, "fetch"@]
        } else {
            seq!["git"@]
        },
        JjCommand::OpLog => seq!["op"@, "log"@],
        JjCommand::Undo => seq!["undo"@],
    }
}

/// The arguments that are handed on behind the subcommand: all of them, but
/// for the `push` or `fetch` that became part of the subcommand.
pub open spec fn handed_on(cmd: JjCommand, args: Seq<Seq<char>>) -> Seq<Seq<char>> {
    if cmd is Git && (first_is(args, "push"@) || first_is(args, "fetch"@)) {
        args.skip(1)
    } else {
        args
    }
}

/// The command as the user could have typed it: `jj`, the subcommand and
/// the arguments, the latter joined by spaces behind one space.
pub open spec fn command_text(cmd: JjCommand, args: Seq<Seq<char>>) -> Seq<char> {
    "jj "@ + spaced(subcommand(cmd, args)) + seq![' '] + spaced(handed_on(cmd, args))
}

/// The command as it was run through this tool.
pub open spec fn rewritten_text(cmd: JjCommand, args: Seq<Seq<char>>) -> Seq<char> {
    "rtk "@ + command_text(cmd, args) + if strategy_for(cmd, args) == Strategy::Passthrough {
        " (passthrough)"@
    } else {
        seq![]
    }
}

fn owned(s: &str) -> (out: String)
    ensures
        out@ == s@,
{
    s.to_owned()
}

fn subcommand_of(cmd: JjCommand, args: &[String]) -> (out: Vec<String>)
    ensures
        texts(out@) == subcommand(cmd, texts(args@)),
{
    let mut out: Vec<String> = Vec::new();
    match cmd {
        JjCommand::Status => out.push(owned("status")),
        JjCommand::Log { .. } => out.push(owned("log")),
        JjCommand::Diff => out.push(owned("diff")),
        JjCommand::Show => out.push(owned("show")),
        JjCommand::Describe => out.push(owned("describe")),
        JjCommand::New => out.push(owned("new")),
        JjCommand::Squash => out.push(owned("squash")),
        JjCommand::Absorb => out.push(owned("absorb")),
        JjCommand::Rebase => out.push(owned("rebase")),
        JjCommand::Bookmark => out.push(owned("bookmark")),
        JjCommand::Git => {
            out.push(owned("git"));
            if args.len() > 0 && same_text(args[0].as_str(), "push") {
                out.push(owned("push"));
            } else if args.len() > 0 && same_text(args[0].as_str(), "fetch") {
                out.push(owned("fetch"));
            }
        },
        JjCommand::OpLog => {
            out.push(owned("op"));
            out.push(owned("log"));
        },
        JjCommand::Undo => out.push(owned("undo")),
    }
    proof {
        assert(texts(out@) =~= subcommand(cmd, texts(args@)));
    }
    out
}

fn asks_for_change(args: &[String]) -> (b: bool)
    ensures
        b == changes_bookmarks(texts(args@)),
{
    let mut i: usize = 0;
    while i < args.len()
        invariant
            i <= args.len(),
            forall|j: int| 0 <= j < i ==> !is_bookmark_verb(#[trigger] texts(args@)[j]),
        decreases args.len() - i,
    {
        let arg = args[i].as_str();
        if same_text(arg, "set") || same_text(arg, "delete") || same_text(arg, "create")
            || same_text(arg, "move") || same_text(arg, "rename") || same_text(arg, "-d")
            || same_text(arg, "--delete") {
            proof {
                assert(is_bookmark_verb(texts(args@)[i as int]));
            }
            return true;
        }
        i += 1;
    }
    false
}

fn strategy_of(cmd: JjCommand, args: &[String]) -> (out: Strategy)
    ensures
        out == strategy_for(cmd, texts(args@)),
{
    match cmd {
        JjCommand::Status => Strategy::CompactStatus,
        JjCommand::Log { limit } => Strategy::CompactLog {
            limit: match limit {
                Some(n) => n,
                None => DEFAULT_LOG_LIMIT,
            },
        },
        JjCommand::Diff => Strategy::CompactDiff,
        JjCommand::Show => Strategy::CompactShow,
        JjCommand::Describe => Strategy::ConfirmationOnly(Mutation::Describe),
        JjCommand::New => Strategy::ConfirmationOnly(Mutation::New),
        JjCommand::Squash => Strategy::ConfirmationOnly(Mutation::Squash),
        JjCommand::Absorb => Strategy::ConfirmationOnly(Mutation::Absorb),
        JjCommand::Rebase => Strategy::ConfirmationOnly(Mutation::Rebase),
        JjCommand::Bookmark => if asks_for_change(args) {
            Strategy::ConfirmationOnly(Mutation::Bookmark)
        } else {
            Strategy::CompactBookmarkList
        },
        JjCommand::Git => if args.len() > 0 && same_text(args[0].as_str(), "push") {
            Strategy::ConfirmationOnly(Mutation::Push)
        } else if args.len() > 0 && same_text(args[0].as_str(), "fetch") {
            Strategy::ConfirmationOnly(Mutation::Fetch)
        } else {
            Strategy::Passthrough
        },
        JjCommand::OpLog => Strategy::CompactOpLog { limit: OP_LOG_LIMIT },
        JjCommand::Undo => Strategy::ConfirmationOnly(Mutation::Undo),
    }
}

fn copy_from(args: &[String], from: usize) -> (out: Vec<String>)
    requires
        from <= args.len(),
    ensures
        texts(out@) == texts(args@).skip(from as int),
{
    let mut out: Vec<String> = Vec::new();
    let mut i: usize = from;
    while i < args.len()
        invariant
            from <= i <= args.len(),
            texts(out@) == texts(args@).subrange(from as int, i as int),
        decreases args.len() - i,
    {
        let ghost kept = texts(out@);
        out.push(args[i].clone());
        proof {
            assert(texts(out@) == kept.push(args@[i as int]@));
        }
        i += 1;
    }
    out
}

fn followed_by(words: Vec<String>, more: Vec<String>) -> (out: Vec<String>)
    ensures
        texts(out@) == texts(words@) + texts(more@),
{
    let mut out = words;
    let mut more = more;
    out.append(&mut more);
    out
}

/// The command that the words of a command line name, with the number of
/// words that name it: one, or two for `op log`. Words that name none of
/// the commands with a compact form give `None`. A log so named has no
/// limit yet.
pub open spec fn command_for(words: Seq<Seq<char>>) -> Option<(JjCommand, usize)> {
    if words.len() == 0 {
        None
    } else if words[0] == "status"@ {
        Some((JjCommand::Status, 1usize))
    } else if words[0] == "log"@ {
        Some((JjCommand::Log { limit: None }, 1usize))
    } else if words[0] == "diff"@ {
        Some((JjCommand::Diff, 1usize))
    } else if words[0] == "show"@ {
        Some((JjCommand::Show, 1usize))
    } else if words[0] == "describe"@ {
        Some((JjCommand::Describe, 1usize))
    } else if words[0] == "new"@ {
        Some((JjCommand::New, 1usize))
    } else if words[0] == "squash"@ {
        Some((JjCommand::Squash, 1usize))
    } else if words[0] == "absorb"@ {
        Some((JjCommand::Absorb, 1usize))
    } else if words[0] == "rebase"@ {
        Some((JjCommand::Rebase, 1usize))
    } else if words[0] == "bookmark"@ {
        Some((JjCommand::Bookmark, 1usize))
    } else if words[0] == "git"@ {
        Some((JjCommand::Git, 1usize))
    } else if words[0] == "undo"@ {
        Some((JjCommand::Undo, 1usize))
    } else if words[0] == "op"@ && words.len() > 1 && words[1] == "log"@ {
        Some((JjCommand::OpLog, 2usize))
    } else {
        None
    }
}

/// Finds the command that the words of a command line name. What names
/// none is for `jj` itself, and is relayed.
pub fn command_named(words: &[String]) -> (r: Option<(JjCommand, usize)>)
    ensures
        r == command_for(texts(words@)),
{
    if words.len() == 0 {
        return None;
    }
    proof {
        assert(texts(words@)[0] == words@[0]@);
    }
    let first = words[0].as_str();
    if same_text(first, "status") {
        Some((JjCommand::Status, 1))
    } else if same_text(first, "log") {
        Some((JjCommand::Log { limit: None }, 1))
    } else if same_text(first, "diff") {
        Some((JjCommand::Diff, 1))
    } else if same_text(first, "show") {
        Some((JjCommand::Show, 1))
    } else if same_text(first, "describe") {
        Some((JjCommand::Describe, 1))
    } else if same_text(first, "new") {
        Some((JjCommand::New, 1))
    } else if same_text(first, "squash") {
        Some((JjCommand::Squash, 1))
    } else if same_text(first, "absorb") {
        Some((JjCommand::Absorb, 1))
    } else if same_text(first, "rebase") {
        Some((JjCommand::Rebase, 1))
    } else if same_text(first, "bookmark") {
        Some((JjCommand::Bookmark, 1))
    } else if same_text(first, "git") {
        Some((JjCommand::Git, 1))
    } else if same_text(first, "undo") {
        Some((JjCommand::Undo, 1))
    } else if same_text(first, "op") && words.len() > 1 && same_text(words[1].as_str(), "log") {
        proof {
            assert(texts(words@)[1] == words@[1]@);
        }
        Some((JjCommand::OpLog, 2))
    } else {
        proof {
            if words.len() > 1 {
                assert(texts(words@)[1] == words@[1]@);
            }
        }
        None
    }
}

/// Plans the invocation of `jj` for a command and its arguments.
///
/// The plan names the strategy, the arguments that `jj` gets, those of the
/// statistics pass that a diff runs first, and the two texts under which the
/// invocation is recorded. `jj git` without arguments is not captured; every
/// other invocation is.
pub fn run(cmd: JjCommand, args: &[String], verbose: u8) -> (plan: Plan)
    ensures
        plan.strategy == strategy_for(cmd, texts(args@)),
        texts(plan.argv@) == subcommand(cmd, texts(args@)) + handed_on(cmd, texts(args@)),
        texts(plan.stat_argv@) == (if cmd is Diff {
            seq!["diff"@, "--stat"@] + texts(args@)
        } else {
            seq![]
        }),
        plan.captured == !(cmd is Git && args@.len() == 0),
        plan.command@ == command_text(cmd, texts(args@)),
        plan.rewritten@ == rewritten_text(cmd, texts(args@)),
        plan.verbose == (verbose > 0),
{
    let strategy = strategy_of(cmd, args);
    let words = subcommand_of(cmd, args);
    let skip: usize = if words.len() == 2 && matches!(cmd, JjCommand::Git) {
        1
    } else {
        0
    };
    proof {
        assert(texts(args@).skip(0) == texts(args@));
        assert(texts(words@).len() == words@.len());
        assert(texts(args@).len() == args@.len());
    }
    let rest = copy_from(args, skip);
    let mut command = chars_of("jj ");
    push_all(&mut command, join_words(words.as_slice()).as_slice());
    command.push(' ');
    push_all(&mut command, join_words(rest.as_slice()).as_slice());
    let mut rewritten = chars_of("rtk ");
    push_all(&mut rewritten, command.as_slice());
    if matches!(strategy, Strategy::Passthrough) {
        push_all(&mut rewritten, chars_of(" (passthrough)").as_slice());
    }
    let stat_argv = if matches!(cmd, JjCommand::Diff) {
        let mut stat: Vec<String> = Vec::new();
        stat.push(owned("diff"));
        stat.push(owned("--stat"));
        proof {
            assert(texts(stat@) =~= seq!["diff"@, "--stat"@]);
        }
        followed_by(stat, copy_from(args, 0))
    } else {
        Vec::new()
    };
    Plan {
        strategy,
        argv: followed_by(words, rest),
        stat_argv,
        captured: !(matches!(cmd, JjCommand::Git) && args.len() == 0),
        command: string_of(command.as_slice()),
        rewritten: string_of(rewritten.as_slice()),
        verbose: verbose > 0,
    }
}

} // verus!
