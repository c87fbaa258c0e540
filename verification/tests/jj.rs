use rtk::jj::{
    count_absorbed_changes, count_fetched_refs, extract_change_id, extract_pushed_bookmark,
    extract_rebased_count, extract_relative_time, filter_bookmark_list, filter_jj_log,
    filter_jj_op_log, filter_jj_status, parse_commit_line, parse_log_entry, truncate_message,
};

#[test]
fn test_filter_jj_status_clean() {
    let raw = r#"The working copy has no changes.
Working copy  (@) : kntqzsqt d7439b06 (empty) (no description set)
Parent commit (@-): orrkosyo 7fd1a60b master | (empty) Merge pull request #6
"#;
    let result = filter_jj_status(raw);
    assert!(result.contains("@ kntqzsqt d7439b06"));
    assert!(result.contains("(empty)"));
    assert!(!result.contains("The working copy has no changes"));
}

#[test]
fn test_filter_jj_status_with_changes() {
    let raw = r#"Working copy changes:
M src/main.rs
A new_file.rs
Working copy  (@) : abc12345 def67890 Add new feature
Parent commit (@-): xyz98765 uvw54321 main | Previous commit
"#;
    let result = filter_jj_status(raw);
    assert!(result.contains("@ abc12345"));
    assert!(result.contains("M src/main.rs"));
    assert!(result.contains("A new_file.rs"));
    assert!(result.contains("@-"));
}

#[test]
fn test_filter_jj_log() {
    let raw = r#"@  mpqrykyp user@email.com 2023-02-12 15:00:22 aef4df99
│  (empty) (no description set)
○  kntqzsqt user@email.com 2023-02-12 14:56:59 5d39e19d
│  Say goodbye
"#;
    let result = filter_jj_log(raw, 5);
    assert!(result.contains("@ mpqrykyp aef4df99"));
    assert!(result.contains("\u{25cb} kntqzsqt 5d39e19d")); // ○
    assert!(!result.contains("user@email.com")); // Email stripped
}

#[test]
fn test_filter_jj_log_limit() {
    let raw = r#"@  aaa11111 user@email.com 2023-02-12 15:00:22 hash1111
│  msg1
○  bbb22222 user@email.com 2023-02-12 14:00:00 hash2222
│  msg2
○  ccc33333 user@email.com 2023-02-12 13:00:00 hash3333
│  msg3
○  ddd44444 user@email.com 2023-02-12 12:00:00 hash4444
│  msg4
"#;
    let result = filter_jj_log(raw, 2);
    let lines: Vec<&str> = result.lines().collect();
    assert_eq!(lines.len(), 2);
}

#[test]
fn test_filter_jj_op_log() {
    let raw = r#"@  d3b77addea49 user@host 3 minutes ago, lasted 3 milliseconds
│  squash commits into f7fb5943a6b9460eb106dba2fac5cac1625c6f7a
│  args: jj squash
○  6fc1873c1180 user@host 3 minutes ago, lasted 1 milliseconds
│  snapshot working copy
│  args: jj st
"#;
    let result = filter_jj_op_log(raw, 5);
    assert!(result.contains("@ d3b77ad"));
    assert!(result.contains("3m ago"));
    assert!(result.contains("jj squash") || result.contains("squash"));
}

#[test]
fn test_filter_jj_op_log_limit() {
    let raw = r#"@  op1 user@host 1 minutes ago, lasted 1 milliseconds
│  args: jj new
○  op2 user@host 2 minutes ago, lasted 1 milliseconds
│  args: jj describe
○  op3 user@host 3 minutes ago, lasted 1 milliseconds
│  args: jj squash
○  op4 user@host 4 minutes ago, lasted 1 milliseconds
│  args: jj log
"#;
    let result = filter_jj_op_log(raw, 2);
    let lines: Vec<&str> = result.lines().collect();
    assert_eq!(lines.len(), 2);
}

#[test]
fn test_truncate_message() {
    let short = "Hello";
    assert_eq!(truncate_message(short, 10), "Hello");

    let long = "This is a very long message that should be truncated";
    let result = truncate_message(long, 20);
    assert!(result.len() <= 20);
    assert!(result.ends_with("..."));
}

#[test]
fn test_extract_relative_time() {
    assert_eq!(
        extract_relative_time("user@host 3 minutes ago, lasted"),
        "3m ago"
    );
    assert_eq!(
        extract_relative_time("user@host 1 hour ago, lasted"),
        "1h ago"
    );
    assert_eq!(
        extract_relative_time("user@host 5 seconds ago, lasted"),
        "5s ago"
    );
    assert_eq!(
        extract_relative_time("user@host 2 days ago, lasted"),
        "2d ago"
    );
}

#[test]
fn test_extract_change_id() {
    let output = "Working copy now at: abc12345 def67890";
    assert_eq!(extract_change_id(output), Some("abc12345".to_string()));

    let output2 = "No change id here";
    assert_eq!(extract_change_id(output2), None);
}

#[test]
fn test_parse_commit_line_with_bookmark() {
    let line = "Working copy  (@) : kntqzsqt d7439b06 master | Some message";
    let result = parse_commit_line(line, "@");
    assert!(result.contains("@ kntqzsqt d7439b06"));
    assert!(result.contains("master"));
}

#[test]
fn test_parse_commit_line_empty() {
    let line = "Working copy  (@) : kntqzsqt d7439b06 (empty) (no description set)";
    let result = parse_commit_line(line, "@");
    assert!(result.contains("@ kntqzsqt d7439b06"));
    assert!(result.contains("(empty)"));
}

#[test]
fn test_filter_bookmark_list() {
    let raw = r#"main: orrkosyo 7fd1a60b (empty) Merge pull request #6
feature: abc12345 def67890 Add feature
  @origin: abc12345 def67890
"#;
    let result = filter_bookmark_list(raw);
    assert!(result.contains("main: orrkosyo 7fd1a60b"));
    assert!(result.contains("feature: abc12345 def67890"));
}

#[test]
fn test_filter_bookmark_list_tracked() {
    let raw = "main: abc12345 def67890 (tracked) @origin\n";
    let result = filter_bookmark_list(raw);
    assert!(result.contains("(tracked)"));
}

#[test]
fn status_of_a_clean_working_copy_has_two_rows() {
    let raw = "The working copy has no changes.\nWorking copy  (@) : kntqzsqt d7439b06 (empty) (no description set)\nParent commit (@-): orrkosyo 7fd1a60b master | (empty) Merge pull request #6\n";
    assert_eq!(
        filter_jj_status(raw),
        "@ kntqzsqt d7439b06 (empty)\n@- orrkosyo 7fd1a60b master (empty)"
    );
}

#[test]
fn log_keeps_the_first_entries_and_drops_mail_and_dates() {
    let raw = "@  aaaaaaaa ann@example.org 2023-02-12 15:00:22 0123abcd\n│  first\n○  bbbbbbbb bob@example.org 2023-02-11 14:00:00 4567cdef main\n│  second\n○  cccccccc cy@example.org 2023-02-10 13:00:00 89ab0123\n│  third\n◆  dddddddd di@example.org 2023-02-09 12:00:00 cdef4567\n│  fourth\n";
    let result = filter_jj_log(raw, 2);
    assert_eq!(
        result,
        "@ aaaaaaaa 0123abcd first\n\u{25cb} bbbbbbbb 4567cdef main second"
    );
    for line in result.lines() {
        assert!(!line.contains("@example.org"));
        assert!(!line.contains("2023-02-1"));
    }
}

#[test]
fn op_log_row_has_short_time_and_command() {
    let raw = "@  d3b77addea49 user@host 3 minutes ago, lasted 3 milliseconds\n│  args: jj squash\n";
    let result = filter_jj_op_log(raw, 5);
    assert_eq!(result, "@ d3b77ad 3m ago jj squash");
    assert!(result.contains("3m ago"));
    assert!(result.contains("squash"));
}

#[test]
fn empty_input_gives_the_empty_state_of_each_family() {
    assert_eq!(filter_jj_status(""), "Clean working copy");
    assert_eq!(filter_jj_log("", 5), "No commits");
    assert_eq!(filter_jj_op_log("", 5), "No operations");
    assert_eq!(filter_bookmark_list(""), "No bookmarks");
}

#[test]
fn limit_zero_shows_no_entry() {
    let raw = "@  aaaaaaaa ann@example.org 2023-02-12 15:00:22 0123abcd\n";
    assert_eq!(filter_jj_log(raw, 0), "No commits");
    let ops = "@  d3b77addea49 user@host 3 minutes ago, lasted 3 milliseconds\n";
    assert_eq!(filter_jj_op_log(ops, 0), "No operations");
}

#[test]
fn relative_time_without_a_phrase_is_now() {
    assert_eq!(extract_relative_time(""), "now");
    assert_eq!(extract_relative_time("user@host yesterday"), "now");
    assert_eq!(extract_relative_time("minutes ago"), "now");
    assert_eq!(extract_relative_time("a few minutes ago"), "now");
    assert_eq!(extract_relative_time("2 weeks ago"), "2w ago");
    assert_eq!(extract_relative_time("1 week ago"), "1w ago");
    assert_eq!(extract_relative_time("1 minute ago"), "1m ago");
    assert_eq!(extract_relative_time("1 second ago"), "1s ago");
    assert_eq!(extract_relative_time("1 day ago"), "1d ago");
    assert_eq!(extract_relative_time("7 hours ago"), "7h ago");
    assert_eq!(extract_relative_time("99999999999999999999 hours ago"), "now");
}

#[test]
fn truncate_message_counts_characters() {
    assert_eq!(truncate_message("abcdefghij", 10), "abcdefghij");
    assert_eq!(truncate_message("abcdefghijk", 10), "abcdefg...");
    assert_eq!(truncate_message("äöüäöüäöüäöü", 6), "äöü...");
    assert_eq!(truncate_message("abcdef", 2), "...");
    assert_eq!(truncate_message("", 0), "");
}

#[test]
fn log_entry_fields() {
    assert_eq!(parse_log_entry("@  mpqrykyp user@email.com 2023-02-12 15:00:22 aef4df99"), "@ mpqrykyp aef4df99");
    assert_eq!(parse_log_entry("\u{25c6}  zzzzzzzz root() 00000000"), "\u{25c6} zzzzzzzz 00000000");
    assert_eq!(parse_log_entry("\u{25cf}  kkkkkkkk 12345678 main (empty)"), "\u{25cf} kkkkkkkk 12345678 main");
    assert_eq!(parse_log_entry("@  kkkkkkkk 12345678 push-abc"), "@ kkkkkkkk 12345678");
    assert_eq!(parse_log_entry("@  kkkkkkkk 12345678 (empty)"), "@ kkkkkkkk 12345678");
    assert_eq!(parse_log_entry("@  kkkkkkkk ABCDEF12 main"), "@ kkkkkkkk ");
    assert_eq!(parse_log_entry("@"), "@");
    assert_eq!(parse_log_entry("  x y"), " x ");
}

#[test]
fn log_description_is_cut_to_fifty_characters() {
    let raw = "@  aaaaaaaa 0123abcd\n│  0123456789012345678901234567890123456789012345678901234567890\n│  more\n│  (empty) nothing\n│  mail me@there\n";
    assert_eq!(
        filter_jj_log(raw, 5),
        "@ aaaaaaaa 0123abcd 01234567890123456789012345678901234567890123456... more"
    );
}

#[test]
fn commit_line_without_colon_is_kept_whole() {
    assert_eq!(parse_commit_line("Working copy", "@"), "@ Working copy");
    assert_eq!(parse_commit_line("Working copy : one", "@"), "@ Working copy : one");
    assert_eq!(parse_commit_line("x: a b c", "@-"), "@- a b");
    assert_eq!(parse_commit_line("x: a b c | d e", "@-"), "@- a b c");
    assert_eq!(parse_commit_line("x: a b c d | e", "@-"), "@- a b c");
    assert_eq!(
        parse_commit_line("Working copy  (@) : abc12345 def67890 Add new feature", "@"),
        "@ abc12345 def67890"
    );
    assert_eq!(parse_commit_line("x: a b (c)", "@-"), "@- a b");
    assert_eq!(parse_commit_line("x: a b | c", "@-"), "@- a b");
}

#[test]
fn status_shows_no_word_of_a_description() {
    let raw = "Working copy changes:\nM src/main.rs\nWorking copy  (@) : abc12345 def67890 Add new feature\nParent commit (@-): xyz98765 uvw54321 main | Previous commit\n";
    assert_eq!(
        filter_jj_status(raw),
        "@ abc12345 def67890\n  M src/main.rs\n@- xyz98765 uvw54321 main"
    );
}

#[test]
fn status_reports_changed_files_between_the_commits() {
    let raw = "Parent commit (@-): pppppppp 11111111 main | p\nD gone.rs\nRebased 2 descendant commits\nWorking copy  (@) : wwwwwwww 22222222 (empty) w\nR old.rs => new.rs\nC a => b\nM\n";
    assert_eq!(
        filter_jj_status(raw),
        "@ wwwwwwww 22222222 (empty)\n  D gone.rs\n  R old.rs => new.rs\n  C a => b\n@- pppppppp 11111111 main"
    );
}

#[test]
fn op_log_description_rules() {
    let raw = "\u{25cb}  0123456789ab 2 hours ago\n│  first line that is longer than thirty characters\n│  second\n@\n│  args: jj st\n@  abc\n│  args:args:  jj log  \n";
    assert_eq!(
        filter_jj_op_log(raw, 5),
        "\u{25cb} 0123456 2h ago first line that is longer t...\n@ abc now jj log"
    );
}

#[test]
fn bookmark_rows() {
    let raw = "main: aaaaaaaa 11111111 desc\n  @git: aaaaaaaa 11111111\n\nnote\ndev: bbbbbbbb\ntop: cccccccc 33333333\n  @origin (ahead by 1 commits): cccccccc 33333333\n";
    assert_eq!(
        filter_bookmark_list(raw),
        "main: aaaaaaaa 11111111\nnote\ndev: bbbbbbbb\ntop: cccccccc 33333333 (tracked)"
    );
}

#[test]
fn counts_and_names_from_mutation_output() {
    assert_eq!(count_absorbed_changes("Absorbed changes into 2 revisions:\n  a\nABSORBED b\nnothing"), 2);
    assert_eq!(count_absorbed_changes(""), 0);
    assert_eq!(extract_rebased_count("Rebased 3 commits onto destination"), 3);
    assert_eq!(extract_rebased_count("REBASED +4 x 12 commits"), 12);
    assert_eq!(extract_rebased_count("rebased 99999999999999999999999 7"), 7);
    assert_eq!(extract_rebased_count("moved 3 commits"), 0);
    assert_eq!(extract_rebased_count("rebased none\nalso rebased 5"), 5);
    assert_eq!(count_fetched_refs("bookmark: main@origin [new] tracked\nx -> y\nnothing\nrenewed"), 3);
    assert_eq!(extract_pushed_bookmark("Move forward bookmark main from a -> b"), Some("a".to_string()));
    assert_eq!(extract_pushed_bookmark("-> x\nCreating bookmark push-abcdef for revision"), Some("push-abcdef".to_string()));
    assert_eq!(extract_pushed_bookmark("Nothing changed."), None);
    assert_eq!(extract_change_id("Created ABCDEFGH\nnow at abcdefg1 x"), Some("abcdefg1".to_string()));
}

#[test]
fn text_without_markers_falls_back() {
    let banner = "Hint - use `jj help` for more\nnothing to see here\n";
    assert_eq!(filter_jj_status(banner), "Clean working copy");
    assert_eq!(filter_jj_log(banner, 5), "No commits");
    assert_eq!(filter_jj_op_log(banner, 5), "No operations");
    assert_eq!(
        filter_bookmark_list(banner),
        "Hint - use `jj help` for more\nnothing to see here"
    );
    assert_eq!(filter_jj_log("│  a description without an entry\n", 5), "No commits");
    assert_eq!(filter_jj_op_log("│  args: jj log\n", 5), "No operations");
    assert_eq!(filter_jj_op_log("@\n", 5), "No operations");
}

#[test]
fn relative_time_takes_the_token_as_it_stands() {
    assert_eq!(extract_relative_time("+5 minutes ago"), "+5m ago");
    assert_eq!(extract_relative_time("007 days ago"), "007d ago");
    assert_eq!(extract_relative_time("-5 minutes ago"), "now");
    assert_eq!(extract_relative_time("x3 hours ago"), "now");
    assert_eq!(extract_relative_time("3hours ago"), "3h ago");
    assert_eq!(extract_relative_time("2 hours ago and 3 minutes ago"), "3m ago");
    assert_eq!(extract_relative_time("a few seconds ago, 3 minutes ago"), "now");
    assert_eq!(extract_relative_time("lasted 3 milliseconds ago"), "now");
}

#[test]
fn log_limit_counts_entries_not_lines() {
    let raw = "@  aaaaaaaa 0123abcd\n│  one\n│  two\n○  bbbbbbbb 4567cdef\n│  three\n~\n";
    assert_eq!(filter_jj_log(raw, 1), "@ aaaaaaaa 0123abcd one two");
    assert_eq!(
        filter_jj_log(raw, 2),
        "@ aaaaaaaa 0123abcd one two\n\u{25cb} bbbbbbbb 4567cdef three"
    );
    assert_eq!(filter_jj_log(raw, 3), filter_jj_log(raw, 2));
    for limit in 0..4usize {
        let shown = filter_jj_log(raw, limit);
        if shown != "No commits" {
            assert!(shown.lines().count() <= limit);
        }
    }
}

#[test]
fn raising_the_limit_adds_lines_at_the_end() {
    let ops = "@  aaaaaaaaaaaa 1 minute ago\n│  args: jj new\n○  bbbbbbbbbbbb 2 minutes ago\n│  args: jj describe\n○  cccccccccccc 3 hours ago\n│  snapshot working copy\n";
    let log = "@  aaaaaaaa 0123abcd\n│  one\n○  bbbbbbbb 4567cdef\n○  cccccccc 89ab0123 main\n";
    let mut shown_ops = String::new();
    let mut shown_log = String::new();
    for limit in 1..5usize {
        let next_ops = filter_jj_op_log(ops, limit);
        let next_log = filter_jj_log(log, limit);
        assert!(next_ops.starts_with(&shown_ops));
        assert!(next_log.starts_with(&shown_log));
        assert_eq!(next_ops.lines().count(), limit.min(3));
        assert_eq!(next_log.lines().count(), limit.min(3));
        shown_ops = next_ops;
        shown_log = next_log;
    }
    assert_eq!(
        shown_ops,
        "@ aaaaaaa 1m ago jj new\n\u{25cb} bbbbbbb 2m ago jj describe\n\u{25cb} ccccccc 3h ago snapshot working copy"
    );
}
