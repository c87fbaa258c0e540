use rtk::init::{
    file_update, global_state, hook_state, inject_instructions, install_paths, join_path,
    local_state, patch_instruction_file, remove_rtk_block, run, settings_dir, FileUpdate,
    HookState, InitAction, InitWarning, Injection, InstructionState, RTK_INSTRUCTIONS,
};

#[test]
fn test_init_mentions_all_top_level_commands() {
    for cmd in [
        "rtk cargo",
        "rtk gh",
        "rtk vitest",
        "rtk tsc",
        "rtk lint",
        "rtk prettier",
        "rtk next",
        "rtk playwright",
        "rtk prisma",
        "rtk pnpm",
        "rtk npm",
        "rtk curl",
        "rtk git",
        "rtk docker",
        "rtk kubectl",
    ] {
        assert!(
            RTK_INSTRUCTIONS.contains(cmd),
            "Missing {cmd} in RTK_INSTRUCTIONS"
        );
    }
}

#[test]
fn test_init_has_version_marker() {
    assert!(
        RTK_INSTRUCTIONS.contains("<!-- rtk-instructions"),
        "RTK_INSTRUCTIONS must have version marker for idempotency"
    );
}

#[test]
fn test_migration_removes_old_block() {
    let input = r#"# My Config

<!-- rtk-instructions v2 -->
OLD RTK STUFF
<!-- /rtk-instructions -->

More content"#;

    let (result, migrated) = remove_rtk_block(input);
    assert!(migrated);
    assert!(!result.contains("OLD RTK STUFF"));
    assert!(result.contains("# My Config"));
    assert!(result.contains("More content"));
}

#[test]
fn test_migration_warns_on_missing_end_marker() {
    let input = "<!-- rtk-instructions v2 -->\nOLD STUFF\nNo end marker";
    let (result, migrated) = remove_rtk_block(input);
    assert!(!migrated);
    assert_eq!(result, input);
}

#[test]
fn test_claude_md_mode_creates_full_injection() {
    // Just verify RTK_INSTRUCTIONS constant has the right content
    assert!(RTK_INSTRUCTIONS.contains("<!-- rtk-instructions"));
    assert!(RTK_INSTRUCTIONS.contains("rtk cargo test"));
    assert!(RTK_INSTRUCTIONS.contains("<!-- /rtk-instructions -->"));
    assert!(RTK_INSTRUCTIONS.len() > 4000);
}

#[test]
fn removing_the_block_keeps_what_surrounds_it() {
    let input = "# My Config\n\n<!-- rtk-instructions v2 -->\nOLD\n<!-- /rtk-instructions -->\n\nMore content";
    assert_eq!(
        remove_rtk_block(input),
        ("# My Config\n\nMore content".to_string(), true)
    );
    let at_end = "# My Config  \n<!-- rtk-instructions v2 -->\nOLD\n<!-- /rtk-instructions -->\n \n";
    assert_eq!(remove_rtk_block(at_end), ("# My Config".to_string(), true));
    assert_eq!(remove_rtk_block("plain"), ("plain".to_string(), false));
    assert_eq!(
        remove_rtk_block("<!-- /rtk-instructions -->"),
        ("<!-- /rtk-instructions -->".to_string(), false)
    );
}

#[test]
fn setup_modes() {
    let plan = run(true, false, false, 0, true);
    assert_eq!(plan.action, InitAction::HookAndNotice);
    assert_eq!(plan.warning, None);
    assert!(!plan.verbose);
    let plan = run(false, false, false, 2, true);
    assert_eq!(plan.action, InitAction::Instructions { global: false });
    assert!(plan.verbose);
    let plan = run(true, true, true, 0, true);
    assert_eq!(plan.action, InitAction::Instructions { global: true });
    let plan = run(true, false, true, 0, true);
    assert_eq!(plan.action, InitAction::HookOnly);
    let plan = run(false, false, true, 0, true);
    assert_eq!(plan.action, InitAction::Nothing);
    assert_eq!(plan.warning, Some(InitWarning::HookOnlyNeedsGlobal));
    let plan = run(true, false, false, 0, false);
    assert_eq!(plan.action, InitAction::Instructions { global: true });
    assert_eq!(plan.warning, Some(InitWarning::HooksUnsupported));
    let plan = run(true, false, true, 0, false);
    assert_eq!(plan.action, InitAction::Nothing);
    assert_eq!(plan.warning, Some(InitWarning::HooksUnsupported));
}

#[test]
fn files_written_whole() {
    assert_eq!(file_update(None, "x"), FileUpdate::Created);
    assert_eq!(file_update(Some("x"), "x"), FileUpdate::UpToDate);
    assert_eq!(file_update(Some("y"), "x"), FileUpdate::Updated);
}

#[test]
fn patching_adds_the_reference_once() {
    let patch = patch_instruction_file("");
    assert_eq!(patch.content, "@RTK.md\n");
    assert!(patch.write);
    assert!(!patch.migrated);
    let patch = patch_instruction_file("# My stuff\n");
    assert_eq!(patch.content, "# My stuff\n\n@RTK.md\n");
    assert!(patch.write);
    let patch = patch_instruction_file("# My stuff\n\n@RTK.md\n");
    assert_eq!(patch.content, "# My stuff\n\n@RTK.md\n");
    assert!(!patch.write);
    assert_eq!(patch.content.matches("@RTK.md").count(), 1);
    let patch = patch_instruction_file(
        "# Mine\n<!-- rtk-instructions v2 -->\nOLD\n<!-- /rtk-instructions -->\n",
    );
    assert_eq!(patch.content, "# Mine\n\n@RTK.md\n");
    assert!(patch.migrated);
    assert!(patch.write);
    let patch = patch_instruction_file(
        "@RTK.md\n<!-- rtk-instructions v2 -->\nOLD\n<!-- /rtk-instructions -->\n",
    );
    assert_eq!(patch.content, "@RTK.md");
    assert!(patch.migrated);
    assert!(patch.write);
}

#[test]
fn injecting_the_full_instructions() {
    assert!(matches!(inject_instructions(None), Injection::Created(text) if text == RTK_INSTRUCTIONS));
    assert!(matches!(inject_instructions(Some(RTK_INSTRUCTIONS)), Injection::Present));
    match inject_instructions(Some("  # Notes\n")) {
        Injection::Added(text) => {
            assert_eq!(text, format!("# Notes\n\n{}", RTK_INSTRUCTIONS));
        }
        _ => panic!("the instructions are added behind the notes"),
    }
}

#[test]
fn states_of_what_is_installed() {
    let good = "#!/bin/sh\ncommand -v rtk || exit 0\ncommand -v jq || exit 0\nset -euo pipefail\n";
    assert_eq!(hook_state(None, Some(true)), HookState::Missing);
    assert_eq!(hook_state(Some(good), Some(true)), HookState::Ready);
    assert_eq!(hook_state(Some(good), Some(false)), HookState::NotExecutable);
    assert_eq!(hook_state(Some("set -euo pipefail\n"), Some(true)), HookState::Outdated);
    assert_eq!(hook_state(Some("set -euo pipefail\n"), Some(false)), HookState::NotExecutable);
    assert_eq!(hook_state(Some(good), None), HookState::Exists);
    assert_eq!(global_state(None), InstructionState::Missing);
    assert_eq!(global_state(Some("@RTK.md <!-- rtk-instructions")), InstructionState::Reference);
    assert_eq!(global_state(Some("<!-- rtk-instructions v2 -->")), InstructionState::Block);
    assert_eq!(global_state(Some("rtk")), InstructionState::Unconfigured);
    assert_eq!(local_state(None), InstructionState::Missing);
    assert_eq!(local_state(Some("use rtk")), InstructionState::Mentioned);
    assert_eq!(local_state(Some("RTK")), InstructionState::Unconfigured);
}

#[test]
fn paths_of_a_setup() {
    assert_eq!(join_path("/home/u", "x"), "/home/u/x");
    assert_eq!(join_path("/", "x"), "/x");
    assert_eq!(join_path("", "x"), "x");
    assert_eq!(settings_dir(None, ".agent"), None);
    let dir = settings_dir(Some("/home/u"), ".agent").unwrap();
    assert_eq!(dir, "/home/u/.agent");
    let paths = install_paths(&dir, "AGENT.md");
    assert_eq!(paths.hook_dir, "/home/u/.agent/hooks");
    assert_eq!(paths.hook, "/home/u/.agent/hooks/rtk-rewrite.sh");
    assert_eq!(paths.notice, "/home/u/.agent/RTK.md");
    assert_eq!(paths.instructions, "/home/u/.agent/AGENT.md");
}

#[test]
fn patching_twice_is_patching_once() {
    for content in [
        "",
        "# My stuff\n",
        "# My stuff\n\n@RTK.md\n",
        "  spaced  \n",
        "# Mine\n<!-- rtk-instructions v2 -->\nOLD\n<!-- /rtk-instructions -->\ntail\n",
        "<!-- rtk-instructions v2 -->\nnever closed\n",
    ] {
        let once = patch_instruction_file(content);
        let twice = patch_instruction_file(&once.content);
        assert_eq!(twice.content, once.content, "{:?}", content);
        assert!(!twice.write);
        assert!(!twice.migrated);
        assert_eq!(twice.content.matches("@RTK.md").count(), 1);
    }
}
