use rtk::jj::confirm::{confirm, Mutation};
use rtk::jj::outcome::{summarize, RawOutput, Sizes};
use rtk::jj::{command_named, run, JjCommand, Strategy};
use rtk::savings::SavingsRecord;

fn raw(stdout: &str, stderr: &str, code: Option<i32>) -> RawOutput {
    RawOutput {
        stdout: stdout.to_string(),
        stderr: stderr.to_string(),
        code,
    }
}

fn words(args: &[&str]) -> Vec<String> {
    args.iter().map(|a| a.to_string()).collect()
}

#[test]
fn describe_success_is_confirmed_in_one_line() {
    for text in ["", "Working copy now at: abc12345 def67890\n", "anything at all"] {
        let out = summarize(
            Strategy::ConfirmationOnly(Mutation::Describe),
            &raw(text, "warning: x\n", Some(0)),
            "",
            false,
        );
        assert_eq!(out.stdout, "ok \u{2713}\n");
        assert_eq!(out.stderr, "");
        assert_eq!(out.code, 0);
        assert_eq!(
            out.sizes,
            Some(Sizes {
                raw: text.len() + "warning: x\n".len(),
                compact: "ok \u{2713}".len()
            })
        );
    }
}

#[test]
fn mutation_failure_hands_on_output_and_code() {
    let out = summarize(
        Strategy::ConfirmationOnly(Mutation::Describe),
        &raw("partial\n", "Error: no such revision\n", Some(3)),
        "",
        true,
    );
    assert_eq!(out.stdout, "");
    assert_eq!(
        out.stderr,
        "FAILED: jj describe\npartial\nError: no such revision\n\n"
    );
    assert!(out.stderr.contains("partial\nError: no such revision\n"));
    assert_eq!(out.code, 3);
    assert_eq!(out.sizes, None);
}

#[test]
fn failure_without_a_code_exits_with_one() {
    let out = summarize(Strategy::CompactStatus, &raw("", "killed", None), "", false);
    assert_eq!(out.code, 1);
    assert_eq!(out.stderr, "killed\n");
    assert_eq!(out.stdout, "");
    let out = summarize(
        Strategy::ConfirmationOnly(Mutation::Push),
        &raw("a", "b", None),
        "",
        false,
    );
    assert_eq!(out.code, 1);
    assert_eq!(out.stderr, "FAILED: jj git push\nab\n");
    let out = summarize(Strategy::CompactBookmarkList, &raw("a", "b", Some(2)), "", false);
    assert_eq!(out.stderr, "FAILED: jj bookmark\nab\n");
    assert_eq!(out.code, 2);
}

#[test]
fn a_failed_read_hands_on_all_that_was_written() {
    for strategy in [
        Strategy::CompactStatus,
        Strategy::CompactLog { limit: 5 },
        Strategy::CompactDiff,
        Strategy::CompactShow,
        Strategy::CompactOpLog { limit: 5 },
    ] {
        let out = summarize(strategy, &raw("x", "", Some(2)), "stat", true);
        assert_eq!(out.stdout, "");
        assert_eq!(out.stderr, "x\n");
        assert_eq!(out.code, 2);
        assert_eq!(out.sizes, None);
        let out = summarize(
            strategy,
            &raw("@  aaaaaaaa 0123abcd\n", "Error: broken pipe\n", None),
            "",
            false,
        );
        assert_eq!(out.stdout, "");
        assert_eq!(out.stderr, "@  aaaaaaaa 0123abcd\nError: broken pipe\n\n");
        assert_eq!(out.code, 1);
    }
}

#[test]
fn reads_are_compacted_on_success() {
    let status = "Working copy  (@) : kntqzsqt d7439b06 (empty) (no description set)\n";
    let out = summarize(Strategy::CompactStatus, &raw(status, "", Some(0)), "", true);
    assert_eq!(out.stdout, "@ kntqzsqt d7439b06 (empty)\n");
    assert_eq!(out.stderr, "jj status (filtered):\n");
    assert_eq!(
        out.sizes,
        Some(Sizes {
            raw: status.len(),
            compact: "@ kntqzsqt d7439b06 (empty)".len()
        })
    );
    let log = "@  aaaaaaaa a@b.c 2023-02-12 15:00:22 0123abcd\n○  bbbbbbbb a@b.c 2023-02-12 15:00:22 4567cdef\n";
    let out = summarize(Strategy::CompactLog { limit: 1 }, &raw(log, "", Some(0)), "", true);
    assert_eq!(out.stdout, "@ aaaaaaaa 0123abcd\n");
    assert_eq!(out.stderr, "jj log (filtered, limit 1):\n");
    let out = summarize(Strategy::CompactOpLog { limit: 5 }, &raw("", "", Some(0)), "", true);
    assert_eq!(out.stdout, "No operations\n");
    assert_eq!(out.stderr, "jj op log (filtered):\n");
    let out = summarize(Strategy::CompactBookmarkList, &raw("main: a b c\n", "x", Some(0)), "", true);
    assert_eq!(out.stdout, "main: a b\n");
    assert_eq!(out.stderr, "jj bookmark list (filtered):\n");
    assert_eq!(out.sizes, Some(Sizes { raw: 12, compact: 9 }));
}

#[test]
fn diff_is_shown_behind_its_statistics() {
    let stat = " a.rs | 2 +-\n 1 file changed, 1 insertion(+), 1 deletion(-)\n";
    let diff = "diff --git a/a.rs b/a.rs\n--- a/a.rs\n+++ b/a.rs\n@@ -1 +1 @@\n-old\n+new\n";
    let out = summarize(Strategy::CompactDiff, &raw(diff, "", Some(0)), stat, false);
    let cut = "diff --git a/a.rs b/a.rs\n--- a/a.rs\n+++ b/a.rs\n@@ -1 +1 @@\n-old\n+new";
    assert_eq!(
        out.stdout,
        format!("{}\n\n--- Changes ---\n{}\n", stat.trim(), cut)
    );
    assert_eq!(
        out.sizes,
        Some(Sizes {
            raw: diff.len(),
            compact: stat.len() + "\n--- Changes ---\n".len() + cut.len()
        })
    );
    let out = summarize(Strategy::CompactDiff, &raw(diff, "", Some(0)), " \n", true);
    assert_eq!(out.stdout, format!("{}\n", cut));
    assert_eq!(out.stderr, "jj diff (compact):\n");
    let out = summarize(Strategy::CompactDiff, &raw("", "", Some(0)), stat, false);
    assert_eq!(out.stdout, format!("{}\n", stat.trim()));
    let out = summarize(Strategy::CompactDiff, &raw("", "", Some(0)), "", false);
    assert_eq!(out.stdout, "");
    let out = summarize(Strategy::CompactDiff, &raw(diff, "bad revset", Some(1)), stat, false);
    assert_eq!(out.stdout, "");
    assert_eq!(out.stderr, format!("{}bad revset\n", diff));
    assert_eq!(out.code, 1);
    assert_eq!(out.sizes, None);
}

#[test]
fn show_keeps_five_lines_of_description() {
    let text = "Commit ID: 1\nChange ID: 2\nAuthor: 3\nCommitter: 4\n\n    message\n\ndiff --git a/x b/x\n@@ -1 +1 @@\n+y\n";
    let out = summarize(Strategy::CompactShow, &raw(text, "", Some(0)), "", true);
    assert_eq!(
        out.stdout,
        "Commit ID: 1\nChange ID: 2\nAuthor: 3\nCommitter: 4\n\ndiff --git a/x b/x\n@@ -1 +1 @@\n+y\n"
    );
    assert_eq!(out.stderr, "jj show (compact):\n");
    assert_eq!(
        out.sizes,
        Some(Sizes {
            raw: text.len(),
            compact: "Commit ID: 1\nChange ID: 2\nAuthor: 3\nCommitter: 4\n\ndiff --git a/x b/x\n@@ -1 +1 @@\n+y".len()
        })
    );
    let out = summarize(Strategy::CompactShow, &raw("one\ntwo\n", "", Some(0)), "", false);
    assert_eq!(out.stdout, "one\ntwo\n");
    assert_eq!(out.sizes, Some(Sizes { raw: 8, compact: 7 }));
    let out = summarize(Strategy::CompactShow, &raw("+++ b/x\n", "", Some(0)), "", false);
    assert_eq!(out.stdout, "+++ b/x\n");
    assert_eq!(out.sizes, Some(Sizes { raw: 8, compact: 8 }));
    let out = summarize(Strategy::CompactShow, &raw("", "", Some(0)), "", false);
    assert_eq!(out.stdout, "");
}

#[test]
fn what_is_relayed_stays_as_it_is() {
    let out = summarize(Strategy::Passthrough, &raw("out", "err", Some(0)), "", true);
    assert_eq!(out.stdout, "out");
    assert_eq!(out.stderr, "err");
    assert_eq!(out.code, 0);
    assert_eq!(out.sizes, Some(Sizes { raw: 0, compact: 0 }));
    let out = summarize(Strategy::Passthrough, &raw("out", "err", Some(9)), "", true);
    assert_eq!(out.stdout, "out");
    assert_eq!(out.stderr, "err");
    assert_eq!(out.code, 9);
    assert_eq!(out.sizes, Some(Sizes { raw: 0, compact: 0 }));
}

#[test]
fn confirmations_carry_one_value() {
    assert_eq!(confirm(Mutation::Describe, "x"), "ok \u{2713}");
    assert_eq!(confirm(Mutation::Bookmark, "x"), "ok \u{2713}");
    assert_eq!(confirm(Mutation::Squash, "x"), "ok \u{2713} squashed");
    assert_eq!(confirm(Mutation::Undo, "x"), "ok \u{2713} undone");
    assert_eq!(
        confirm(Mutation::New, "Working copy now at: abc12345 def67890"),
        "ok \u{2713} abc12345"
    );
    assert_eq!(confirm(Mutation::New, "nothing"), "ok \u{2713}");
    assert_eq!(
        confirm(Mutation::Absorb, "Absorbed changes into 1 revisions\nabsorbed x\n"),
        "ok \u{2713} absorbed 2 changes"
    );
    assert_eq!(confirm(Mutation::Absorb, ""), "ok \u{2713} absorbed");
    assert_eq!(
        confirm(Mutation::Rebase, "Rebased 12 commits"),
        "ok \u{2713} rebased 12 commits"
    );
    assert_eq!(confirm(Mutation::Rebase, "Rebased 0 commits"), "ok \u{2713} rebased");
    assert_eq!(
        confirm(Mutation::Push, "  Move bookmark main from a -> b"),
        "ok \u{2713} pushed a"
    );
    assert_eq!(confirm(Mutation::Push, "Nothing changed."), "ok \u{2713} pushed");
    assert_eq!(
        confirm(Mutation::Fetch, "bookmark: main@origin [new]\nbookmark: dev@origin [updated]\n"),
        "ok \u{2713} fetched (2 new)"
    );
    assert_eq!(confirm(Mutation::Fetch, "Nothing changed."), "ok \u{2713} fetched");
    let verbose = summarize(
        Strategy::ConfirmationOnly(Mutation::Bookmark),
        &raw("", "", Some(0)),
        "",
        true,
    );
    assert_eq!(verbose.stderr, "jj bookmark mutation succeeded\n");
    let verbose = summarize(
        Strategy::ConfirmationOnly(Mutation::Fetch),
        &raw("", "", Some(0)),
        "",
        true,
    );
    assert_eq!(verbose.stderr, "jj git fetch succeeded\n");
    assert_eq!(verbose.stdout, "ok \u{2713} fetched\n");
}

#[test]
fn plans() {
    let plan = run(JjCommand::Status, &words(&["-R", "repo"]), 0);
    assert_eq!(plan.strategy, Strategy::CompactStatus);
    assert_eq!(plan.argv, words(&["status", "-R", "repo"]));
    assert!(plan.stat_argv.is_empty());
    assert!(plan.captured);
    assert_eq!(plan.command, "jj status -R repo");
    assert_eq!(plan.rewritten, "rtk jj status -R repo");
    assert!(!plan.verbose);

    let plan = run(JjCommand::Log { limit: None }, &[], 1);
    assert_eq!(plan.strategy, Strategy::CompactLog { limit: 5 });
    assert_eq!(plan.argv, words(&["log"]));
    assert_eq!(plan.command, "jj log ");
    assert!(plan.verbose);
    let plan = run(JjCommand::Log { limit: Some(9) }, &[], 1);
    assert_eq!(plan.strategy, Strategy::CompactLog { limit: 9 });

    let plan = run(JjCommand::Diff, &words(&["-r", "@"]), 0);
    assert_eq!(plan.strategy, Strategy::CompactDiff);
    assert_eq!(plan.argv, words(&["diff", "-r", "@"]));
    assert_eq!(plan.stat_argv, words(&["diff", "--stat", "-r", "@"]));

    let plan = run(JjCommand::OpLog, &[], 0);
    assert_eq!(plan.strategy, Strategy::CompactOpLog { limit: 5 });
    assert_eq!(plan.argv, words(&["op", "log"]));
    assert_eq!(plan.command, "jj op log ");

    let plan = run(JjCommand::Bookmark, &words(&["list"]), 0);
    assert_eq!(plan.strategy, Strategy::CompactBookmarkList);
    let plan = run(JjCommand::Bookmark, &words(&["main", "--delete"]), 0);
    assert_eq!(plan.strategy, Strategy::ConfirmationOnly(Mutation::Bookmark));
    assert_eq!(plan.argv, words(&["bookmark", "main", "--delete"]));

    let plan = run(JjCommand::Git, &words(&["push", "-b", "main"]), 0);
    assert_eq!(plan.strategy, Strategy::ConfirmationOnly(Mutation::Push));
    assert_eq!(plan.argv, words(&["git", "push", "-b", "main"]));
    assert_eq!(plan.command, "jj git push -b main");
    assert_eq!(plan.rewritten, "rtk jj git push -b main");
    let plan = run(JjCommand::Git, &words(&["fetch"]), 0);
    assert_eq!(plan.strategy, Strategy::ConfirmationOnly(Mutation::Fetch));
    assert_eq!(plan.argv, words(&["git", "fetch"]));
    assert_eq!(plan.command, "jj git fetch ");
    let plan = run(JjCommand::Git, &words(&["clone", "url"]), 0);
    assert_eq!(plan.strategy, Strategy::Passthrough);
    assert_eq!(plan.argv, words(&["git", "clone", "url"]));
    assert_eq!(plan.command, "jj git clone url");
    assert_eq!(plan.rewritten, "rtk jj git clone url (passthrough)");
    assert!(plan.captured);
    let plan = run(JjCommand::Git, &[], 0);
    assert_eq!(plan.strategy, Strategy::Passthrough);
    assert_eq!(plan.argv, words(&["git"]));
    assert!(!plan.captured);

    for (cmd, name, kind) in [
        (JjCommand::Describe, "describe", Mutation::Describe),
        (JjCommand::New, "new", Mutation::New),
        (JjCommand::Squash, "squash", Mutation::Squash),
        (JjCommand::Absorb, "absorb", Mutation::Absorb),
        (JjCommand::Rebase, "rebase", Mutation::Rebase),
        (JjCommand::Undo, "undo", Mutation::Undo),
    ] {
        let plan = run(cmd, &words(&["x"]), 0);
        assert_eq!(plan.strategy, Strategy::ConfirmationOnly(kind));
        assert_eq!(plan.argv, words(&[name, "x"]));
        assert_eq!(plan.command, format!("jj {} x", name));
    }
    let plan = run(JjCommand::Show, &[], 0);
    assert_eq!(plan.strategy, Strategy::CompactShow);
}

#[test]
fn savings_records() {
    let record = SavingsRecord::new("jj status ", "rtk jj status ", "äbc\n", "ok", 17);
    assert_eq!(record.command, "jj status ");
    assert_eq!(record.rewritten, "rtk jj status ");
    assert_eq!(record.raw_len, 5);
    assert_eq!(record.compact_len, 2);
    assert_eq!(record.timestamp, 17);
    assert_eq!(record.saved(), 3);
    let grown = SavingsRecord::new("a", "b", "", "Clean working copy", 0);
    assert_eq!(grown.saved(), 0);
    let relayed = SavingsRecord::passthrough("jj git clone", "rtk jj git clone (passthrough)", 3);
    assert_eq!(relayed.raw_len, 0);
    assert_eq!(relayed.compact_len, 0);
    assert_eq!(relayed.saved(), 0);

    let relayed = SavingsRecord::relayed("workspace list", 4);
    assert_eq!(relayed.command, "jj workspace list");
    assert_eq!(relayed.rewritten, "rtk jj workspace list (passthrough)");
    assert_eq!((relayed.raw_len, relayed.compact_len, relayed.timestamp), (0, 0, 4));

    let plan = run(JjCommand::Describe, &words(&["-m", "x"]), 0);
    let out = summarize(plan.strategy, &raw("", "Working copy now at: x\n", Some(0)), "", false);
    let record = SavingsRecord::of(&plan, &out, 99).unwrap();
    assert_eq!(record.command, "jj describe -m x");
    assert_eq!(record.rewritten, "rtk jj describe -m x");
    assert_eq!(record.raw_len, 23);
    assert_eq!(record.compact_len, 6);
    assert_eq!(record.timestamp, 99);
    let failed = summarize(plan.strategy, &raw("", "", Some(1)), "", false);
    assert_eq!(SavingsRecord::of(&plan, &failed, 99), None);
    let bare = run(JjCommand::Git, &[], 0);
    let out = summarize(bare.strategy, &raw("", "", Some(0)), "", false);
    assert_eq!(SavingsRecord::of(&bare, &out, 99), None);
}

#[test]
fn commands_by_name() {
    assert!(matches!(command_named(&words(&["status", "x"])), Some((JjCommand::Status, 1))));
    assert!(matches!(
        command_named(&words(&["log"])),
        Some((JjCommand::Log { limit: None }, 1))
    ));
    assert!(matches!(command_named(&words(&["diff"])), Some((JjCommand::Diff, 1))));
    assert!(matches!(command_named(&words(&["show"])), Some((JjCommand::Show, 1))));
    assert!(matches!(command_named(&words(&["describe"])), Some((JjCommand::Describe, 1))));
    assert!(matches!(command_named(&words(&["new"])), Some((JjCommand::New, 1))));
    assert!(matches!(command_named(&words(&["squash"])), Some((JjCommand::Squash, 1))));
    assert!(matches!(command_named(&words(&["absorb"])), Some((JjCommand::Absorb, 1))));
    assert!(matches!(command_named(&words(&["rebase"])), Some((JjCommand::Rebase, 1))));
    assert!(matches!(command_named(&words(&["bookmark"])), Some((JjCommand::Bookmark, 1))));
    assert!(matches!(command_named(&words(&["git", "push"])), Some((JjCommand::Git, 1))));
    assert!(matches!(command_named(&words(&["undo"])), Some((JjCommand::Undo, 1))));
    assert!(matches!(command_named(&words(&["op", "log", "x"])), Some((JjCommand::OpLog, 2))));
    assert!(command_named(&words(&["op"])).is_none());
    assert!(command_named(&words(&["op", "show"])).is_none());
    assert!(command_named(&words(&["workspace", "list"])).is_none());
    assert!(command_named(&words(&["Status"])).is_none());
    assert!(command_named(&[]).is_none());
}
