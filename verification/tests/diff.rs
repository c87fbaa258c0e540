use rtk::diff::compact_diff;

#[test]
fn lines_of_a_hunk_are_cut_to_the_width() {
    let diff = "diff --git a/some/long/path.rs b/some/long/path.rs\nindex 0123456..789abcd 100644\n--- a/some/long/path.rs\n+++ b/some/long/path.rs\n@@ -1,3 +1,3 @@ fn main()\n context line\n-removed line that is long\n+added\n";
    assert_eq!(
        compact_diff(diff, 10),
        "diff --git a/some/long/path.rs b/some/long/path.rs\nindex 0123456..789abcd 100644\n--- a/some/long/path.rs\n+++ b/some/long/path.rs\n@@ -1,3 +1,3 @@ fn main()\n context l\n-removed l\n+added"
    );
}

#[test]
fn what_stands_outside_the_hunks_stays_whole() {
    let diff = " src/a/very/long/name.rs | 12 ++++++------\n 1 file changed\n@@ -1 +1 @@\n+0123456789abcdef\ndiff --git a/x b/x\nnew file mode 100644\n";
    assert_eq!(
        compact_diff(diff, 4),
        " src/a/very/long/name.rs | 12 ++++++------\n 1 file changed\n@@ -1 +1 @@\n+012\ndiff --git a/x b/x\nnew file mode 100644"
    );
}

#[test]
fn compacting_never_grows_a_diff() {
    let inputs = [
        "",
        "\n",
        "\n\n",
        "a\r\nb\r\n",
        "@@\n\r\n+ü€𝄞 tail\n",
        "@@ -1 +1 @@\n+ä\n-ö",
        "no newline at end",
        "@@\n+++ header inside\n--- another\n+cut me please\n",
    ];
    for input in inputs {
        for width in [0usize, 1, 2, 3, 100] {
            let out = compact_diff(input, width);
            assert!(out.len() <= input.len());
        }
    }
    assert_eq!(compact_diff("@@\n+ü€𝄞 tail\n", 3), "@@\n+ü€");
    assert_eq!(compact_diff("@@\nabc", 0), "@@\n");
    assert_eq!(compact_diff("", 5), "");
    assert_eq!(compact_diff("a\r\nb\r\n", 5), "a\nb");
}
