//! Setting the tool up: which files to write, and what to write into them.
//!
//! Nothing here touches a file. Each function takes what was read and says
//! what is to be written.

use vstd::prelude::*;
use crate::text::{
    chars_of, contains, find, find_first, includes, lemma_find_from, occurs_at, push_all,
    same_text, string_of, trim, trim_end, trim_start, trimmed, trimmed_end, trimmed_start,
};

pub mod assets;

pub use assets::RTK_INSTRUCTIONS;

verus! {

// ---------------------------------------------------------------------------
// What to do
// ---------------------------------------------------------------------------

/// What a setup does.
#[derive(Debug, Clone, Copy, PartialEq, Eq, Structural)]
pub enum InitAction {
    /// Write the full instructions into the instruction file: the user's
    /// own where `global`, the project's else.
    Instructions { global: bool },
    /// Install the hook and the short notice, and refer to the notice from
    /// the user's instruction file.
    HookAndNotice,
    /// Install the hook alone.
    HookOnly,
    /// Do nothing.
    Nothing,
}

/// Why a setup does less than was asked for.
#[derive(Debug, Clone, Copy, PartialEq, Eq, Structural)]
pub enum InitWarning {
    /// Hooks cannot be installed on this platform.
    HooksUnsupported,
    /// A hook alone was asked for, but not for the user as a whole.
    HookOnlyNeedsGlobal,
}

/// A setup, planned.
#[derive(Debug, Clone, Copy, PartialEq, Eq, Structural)]
pub struct InitPlan {
    /// What to do.
    pub action: InitAction,
    /// What to warn of first.
    pub warning: Option<InitWarning>,
    /// Whether notes on what was done are wanted.
    pub verbose: bool,
}

/// What a setup does, given what was asked for and whether the platform
/// takes hooks.
///
/// Asking for the full instructions wins over everything else. A hook alone
/// is installed only for the user as a whole. Without either wish, the user
/// as a whole gets hook and notice, and a single project the full
/// instructions. Where hooks cannot be installed, a hook alone comes to
/// nothing, and hook and notice give way to the full instructions.
pub open spec fn action_for(global: bool, claude_md: bool, hook_only: bool, hooks: bool) -> InitAction {
    if claude_md {
        InitAction::Instructions { global }
    } else if hook_only {
        if hooks && global {
            InitAction::HookOnly
        } else {
            InitAction::Nothing
        }
    } else if hooks && global {
        InitAction::HookAndNotice
    } else {
        InitAction::Instructions { global }
    }
}

/// What a setup warns of.
pub open spec fn warning_for(global: bool, claude_md: bool, hook_only: bool, hooks: bool) -> Option<
    InitWarning,
> {
    if claude_md {
        None
    } else if !hooks {
        Some(InitWarning::HooksUnsupported)
    } else if hook_only && !global {
        Some(InitWarning::HookOnlyNeedsGlobal)
    } else {
        None
    }
}

/// Plans a setup. `hooks` says whether the platform takes hooks.
pub fn run(global: bool, claude_md: bool, hook_only: bool, verbose: u8, hooks: bool) -> (plan:
    InitPlan)
    ensures
        plan.action == action_for(global, claude_md, hook_only, hooks),
        plan.warning == warning_for(global, claude_md, hook_only, hooks),
        plan.verbose == (verbose > 0),
{
    let action = if claude_md {
        InitAction::Instructions { global }
    } else if hook_only {
        if hooks && global {
            InitAction::HookOnly
        } else {
            InitAction::Nothing
        }
    } else if hooks && global {
        InitAction::HookAndNotice
    } else {
        InitAction::Instructions { global }
    };
    let warning = if claude_md {
        None
    } else if !hooks {
        Some(InitWarning::HooksUnsupported)
    } else if hook_only && !global {
        Some(InitWarning::HookOnlyNeedsGlobal)
    } else {
        None
    };
    InitPlan { action, warning, verbose: verbose > 0 }
}

// ---------------------------------------------------------------------------
// Files that are written whole
// ---------------------------------------------------------------------------

/// What happens to a file that is to hold a given text.
#[derive(Debug, Clone, Copy, PartialEq, Eq, Structural)]
pub enum FileUpdate {
    /// The file holds the text already.
    UpToDate,
    /// The file holds something else and is overwritten.
    Updated,
    /// There is no file yet.
    Created,
}

/// What happens to a file that holds `existing`, or does not exist, and is
/// to hold `wanted`.
pub open spec fn update_for(existing: Option<Seq<char>>, wanted: Seq<char>) -> FileUpdate {
    match existing {
        Some(text) => if text == wanted {
            FileUpdate::UpToDate
        } else {
            FileUpdate::Updated
        },
        None => FileUpdate::Created,
    }
}

/// Decides what happens to a file that is to hold `wanted`.
pub fn file_update(existing: Option<&str>, wanted: &str) -> (r: FileUpdate)
    ensures
        r == update_for(
            match existing {
                Some(text) => Some(text@),
                None => None,
            },
            wanted@,
        ),
{
    match existing {
        Some(text) => if same_text(text, wanted) {
            FileUpdate::UpToDate
        } else {
            FileUpdate::Updated
        },
        None => FileUpdate::Created,
    }
}

// ---------------------------------------------------------------------------
// The instruction file
// ---------------------------------------------------------------------------

/// How the block of full instructions opens.
pub open spec fn block_start() -> Seq<char> {
    "<!-- rtk-instructions"@
}

/// How the block of full instructions closes.
pub open spec fn block_end() -> Seq<char> {
    "<!-- /rtk-instructions -->"@
}

/// The reference to the short notice.
pub open spec fn reference() -> Seq<char> {
    "@RTK.md"@
}

/// `content` without its block of full instructions, and whether there was
/// one to take out.
///
/// There is one where both markers occur. What stands before the first
/// opening marker and what stands after the first closing marker are kept,
/// the one without trailing and the other without leading whitespace, with
/// an empty line between them if anything follows. Without both markers
/// `content` stays as it is.
pub open spec fn without_block(content: Seq<char>) -> (Seq<char>, bool) {
    match (find_first(content, block_start()), find_first(content, block_end())) {
        (Some(start), Some(end)) => {
            let before = trimmed_end(content.take(start));
            let after = trimmed_start(content.skip(end + block_end().len()));
            if after.len() == 0 {
                (before, true)
            } else {
                (before + seq!['\n', '\n'] + after, true)
            }
        },
        _ => (content, false),
    }
}

fn without_block_of(content: &[char]) -> (r: (Vec<char>, bool))
    ensures
        (r.0@, r.1) == without_block(content@),
{
    let opening = chars_of("<!-- rtk-instructions");
    let closing = chars_of("<!-- /rtk-instructions -->");
    match find(content, opening.as_slice()) {
        Some(start) => match find(content, closing.as_slice()) {
            Some(end) => {
                proof {
                    lemma_find_from(content@, opening@, 0);
                    lemma_find_from(content@, closing@, 0);
                    assert(occurs_at(content@, closing@, end as int));
                    assert(end + closing@.len() <= content@.len());
                    assert(end + closing.len() <= content.len());
                }
                let before = trim_end(vstd::slice::slice_subrange(content, 0, start));
                let after = trim_start(
                    vstd::slice::slice_subrange(content, end + closing.len(), content.len()),
                );
                let mut out = vstd::slice::slice_to_vec(before);
                if after.len() > 0 {
                    out.push('\n');
                    out.push('\n');
                    push_all(&mut out, after);
                    proof {
                        assert(out@ == before@ + seq!['\n', '\n'] + after@);
                    }
                }
                (out, true)
            },
            None => (vstd::slice::slice_to_vec(content), false),
        },
        None => (vstd::slice::slice_to_vec(content), false),
    }
}

/// Takes the block of full instructions out of `content`. The flag says
/// whether there was a block to take out; where the opening marker stands
/// alone, there is none, and `content` comes back as it is.
pub fn remove_rtk_block(content: &str) -> (r: (String, bool))
    ensures
        (r.0@, r.1) == without_block(content@),
{
    let text = chars_of(content);
    let (out, migrated) = without_block_of(text.as_slice());
    (string_of(out.as_slice()), migrated)
}

/// Whether `content` opens a block of full instructions that it never
/// closes, which is left for the user to mend.
pub fn has_unclosed_block(content: &str) -> (b: bool)
    ensures
        b == (contains(content@, block_start()) && !contains(content@, block_end())),
{
    let text = chars_of(content);
    includes(text.as_slice(), chars_of("<!-- rtk-instructions").as_slice()) && !includes(
        text.as_slice(),
        chars_of("<!-- /rtk-instructions -->").as_slice(),
    )
}

/// What becomes of the user's instruction file.
pub struct Patch {
    /// What the file holds afterwards.
    pub content: String,
    /// Whether a block of full instructions was taken out.
    pub migrated: bool,
    /// Whether the file is written at all.
    pub write: bool,
}

/// `content` with the reference to the short notice at its end: the
/// reference alone where `content` is empty, and else `content`, trimmed,
/// an empty line and the reference.
pub open spec fn with_reference(content: Seq<char>) -> Seq<char> {
    if content.len() == 0 {
        reference() + seq!['\n']
    } else {
        trimmed(content) + seq!['\n', '\n'] + reference() + seq!['\n']
    }
}

/// What the user's instruction file holds after the setup, given what it
/// held before (nothing, where there was no file): the block of full
/// instructions is taken out, and the reference is added unless it is there.
pub open spec fn patched(content: Seq<char>) -> Seq<char> {
    let cleared = without_block(content).0;
    if contains(cleared, reference()) {
        cleared
    } else {
        with_reference(cleared)
    }
}

/// Patching twice is patching once: what a patch leaves behind, a second
/// patch leaves as it is and does not write, unless what it left behind
/// still holds a block of full instructions to take out.
pub proof fn lemma_patch_is_idempotent(content: Seq<char>)
    requires
        !without_block(patched(content)).1,
    ensures
        patched(patched(content)) == patched(content),
        contains(without_block(patched(content)).0, reference()),
{
    let once = patched(content);
    let cleared = without_block(content).0;
    assert(without_block(once).0 == once);
    if !contains(cleared, reference()) {
        let head = if cleared.len() == 0 {
            Seq::<char>::empty()
        } else {
            trimmed(cleared) + seq!['\n', '\n']
        };
        assert(once == head + reference() + seq!['\n']);
        assert(once.subrange(head.len() as int, head.len() as int + reference().len())
            == reference());
        assert(occurs_at(once, reference(), head.len() as int));
    }
}

/// Patches the user's instruction file. The file is written unless it held
/// the reference already and no block was taken out.
pub fn patch_instruction_file(content: &str) -> (patch: Patch)
    ensures
        patch.content@ == patched(content@),
        patch.migrated == without_block(content@).1,
        patch.write == (patch.migrated || !contains(without_block(content@).0, reference())),
{
    let text = chars_of(content);
    let (cleared, migrated) = without_block_of(text.as_slice());
    let mark = chars_of("@RTK.md");
    if includes(cleared.as_slice(), mark.as_slice()) {
        return Patch { content: string_of(cleared.as_slice()), migrated, write: migrated };
    }
    let mut out: Vec<char> = Vec::new();
    if cleared.len() > 0 {
        push_all(&mut out, trim(cleared.as_slice()));
        out.push('\n');
        out.push('\n');
    }
    push_all(&mut out, mark.as_slice());
    out.push('\n');
    proof {
        if cleared@.len() > 0 {
            assert(out@ == trimmed(cleared@) + seq!['\n', '\n'] + reference() + seq!['\n']);
        } else {
            assert(out@ == reference() + seq!['\n']);
        }
    }
    Patch { content: string_of(out.as_slice()), migrated, write: true }
}

/// What becomes of an instruction file that is to hold the full
/// instructions.
pub enum Injection {
    /// The file holds them already and stays as it is.
    Present,
    /// The file gets them behind what it holds; this is its new content.
    Added(String),
    /// There is no file yet; this is its content.
    Created(String),
}

/// What an instruction file holds once the full instructions are added
/// behind `existing`.
pub open spec fn injected(existing: Seq<char>) -> Seq<char> {
    trimmed(existing) + seq!['\n', '\n'] + RTK_INSTRUCTIONS@
}

/// Decides what becomes of an instruction file that is to hold the full
/// instructions, given what it holds, if it exists.
pub fn inject_instructions(existing: Option<&str>) -> (r: Injection)
    ensures
        match existing {
            None => r matches Injection::Created(text) && text@ == RTK_INSTRUCTIONS@,
            Some(old) => if contains(old@, block_start()) {
                r is Present
            } else {
                r matches Injection::Added(text) && text@ == injected(old@)
            },
        },
{
    match existing {
        None => Injection::Created(RTK_INSTRUCTIONS.to_owned()),
        Some(old) => {
            let text = chars_of(old);
            if includes(text.as_slice(), chars_of("<!-- rtk-instructions").as_slice()) {
                Injection::Present
            } else {
                let mut out = vstd::slice::slice_to_vec(trim(text.as_slice()));
                out.push('\n');
                out.push('\n');
                push_all(&mut out, chars_of(RTK_INSTRUCTIONS).as_slice());
                proof {
                    assert(out@ == trimmed(old@) + seq!['\n', '\n'] + RTK_INSTRUCTIONS@);
                }
                Injection::Added(string_of(out.as_slice()))
            }
        },
    }
}


// ---------------------------------------------------------------------------
// What is installed
// ---------------------------------------------------------------------------

/// The state of the installed hook.
#[derive(Debug, Clone, Copy, PartialEq, Eq, Structural)]
pub enum HookState {
    /// There is no hook.
    Missing,
    /// The hook can run and guards against missing tools.
    Ready,
    /// The hook may not be executed.
    NotExecutable,
    /// The hook lacks its guards: it is from an older version.
    Outdated,
    /// There is a hook, on a platform that knows no permission to execute.
    Exists,
}

/// Whether a hook guards against missing tools: it asks for both of them.
pub open spec fn has_guards(hook: Seq<char>) -> bool {
    contains(hook, "command -v rtk"@) && contains(hook, "command -v jq"@)
}

/// The state of a hook, given what it holds, if it exists, and whether it
/// may be executed, where the platform can tell.
pub open spec fn hook_state_for(hook: Option<Seq<char>>, executable: Option<bool>) -> HookState {
    match hook {
        None => HookState::Missing,
        Some(text) => match executable {
            None => HookState::Exists,
            Some(may_run) => if may_run && has_guards(text) {
                HookState::Ready
            } else if !may_run {
                HookState::NotExecutable
            } else {
                HookState::Outdated
            },
        },
    }
}

/// Tells the state of the installed hook.
pub fn hook_state(hook: Option<&str>, executable: Option<bool>) -> (r: HookState)
    ensures
        r == hook_state_for(
            match hook {
                Some(text) => Some(text@),
                None => None,
            },
            executable,
        ),
{
    match hook {
        None => HookState::Missing,
        Some(text) => match executable {
            None => HookState::Exists,
            Some(may_run) => {
                let chars = chars_of(text);
                let guarded = includes(chars.as_slice(), chars_of("command -v rtk").as_slice())
                    && includes(chars.as_slice(), chars_of("command -v jq").as_slice());
                if may_run && guarded {
                    HookState::Ready
                } else if !may_run {
                    HookState::NotExecutable
                } else {
                    HookState::Outdated
                }
            },
        },
    }
}

/// How an instruction file stands to this tool.
#[derive(Debug, Clone, Copy, PartialEq, Eq, Structural)]
pub enum InstructionState {
    /// There is no file.
    Missing,
    /// The file refers to the short notice.
    Reference,
    /// The file holds the block of full instructions.
    Block,
    /// The file mentions the tool.
    Mentioned,
    /// The file says nothing of the tool.
    Unconfigured,
}

/// How the user's instruction file stands to this tool: a reference counts
/// before a block.
pub open spec fn global_state_for(content: Option<Seq<char>>) -> InstructionState {
    match content {
        None => InstructionState::Missing,
        Some(text) => if contains(text, reference()) {
            InstructionState::Reference
        } else if contains(text, block_start()) {
            InstructionState::Block
        } else {
            InstructionState::Unconfigured
        },
    }
}

/// How a project's instruction file stands to this tool: it is set up where
/// it mentions the tool at all.
pub open spec fn local_state_for(content: Option<Seq<char>>) -> InstructionState {
    match content {
        None => InstructionState::Missing,
        Some(text) => if contains(text, "rtk"@) {
            InstructionState::Mentioned
        } else {
            InstructionState::Unconfigured
        },
    }
}

/// Tells how the user's instruction file stands to this tool.
pub fn global_state(content: Option<&str>) -> (r: InstructionState)
    ensures
        r == global_state_for(
            match content {
                Some(text) => Some(text@),
                None => None,
            },
        ),
{
    match content {
        None => InstructionState::Missing,
        Some(text) => {
            let chars = chars_of(text);
            if includes(chars.as_slice(), chars_of("@RTK.md").as_slice()) {
                InstructionState::Reference
            } else if includes(chars.as_slice(), chars_of("<!-- rtk-instructions").as_slice()) {
                InstructionState::Block
            } else {
                InstructionState::Unconfigured
            }
        },
    }
}

/// Tells how a project's instruction file stands to this tool.
pub fn local_state(content: Option<&str>) -> (r: InstructionState)
    ensures
        r == local_state_for(
            match content {
                Some(text) => Some(text@),
                None => None,
            },
        ),
{
    match content {
        None => InstructionState::Missing,
        Some(text) => {
            let chars = chars_of(text);
            if includes(chars.as_slice(), chars_of("rtk").as_slice()) {
                InstructionState::Mentioned
            } else {
                InstructionState::Unconfigured
            }
        },
    }
}

// ---------------------------------------------------------------------------
// Where things are installed
// ---------------------------------------------------------------------------

/// `child` below the directory `base`: the two with one `/` between them,
/// unless `base` is empty or ends in one.
pub open spec fn joined_path(base: Seq<char>, child: Seq<char>) -> Seq<char> {
    if base.len() == 0 || base.last() == '/' {
        base + child
    } else {
        base + seq!['/'] + child
    }
}

/// The path of `child` below the directory `base`.
pub fn join_path(base: &str, child: &str) -> (out: String)
    ensures
        out@ == joined_path(base@, child@),
{
    let mut out = chars_of(base);
    if out.len() > 0 && out[out.len() - 1] != '/' {
        out.push('/');
    }
    push_all(&mut out, chars_of(child).as_slice());
    string_of(out.as_slice())
}

/// Where a setup for the user as a whole puts its files.
pub struct InstallPaths {
    /// The directory of the hooks.
    pub hook_dir: String,
    /// The hook.
    pub hook: String,
    /// The short notice.
    pub notice: String,
    /// The user's instruction file.
    pub instructions: String,
}

/// The files of a setup below the settings directory `dir`, where the
/// user's instruction file is called `instruction_file`.
pub fn install_paths(dir: &str, instruction_file: &str) -> (paths: InstallPaths)
    ensures
        paths.hook_dir@ == joined_path(dir@, "hooks"@),
        paths.hook@ == joined_path(joined_path(dir@, "hooks"@), "rtk-rewrite.sh"@),
        paths.notice@ == joined_path(dir@, "RTK.md"@),
        paths.instructions@ == joined_path(dir@, instruction_file@),
{
    let hook_dir = join_path(dir, "hooks");
    let hook = join_path(hook_dir.as_str(), "rtk-rewrite.sh");
    InstallPaths {
        hook_dir,
        hook,
        notice: join_path(dir, "RTK.md"),
        instructions: join_path(dir, instruction_file),
    }
}

/// The settings directory called `name` below the home directory `home`,
/// where there is one.
pub fn settings_dir(home: Option<&str>, name: &str) -> (dir: Option<String>)
    ensures
        match home {
            Some(h) => dir matches Some(d) && d@ == joined_path(h@, name@),
            None => dir is None,
        },
{
    match home {
        Some(h) => Some(join_path(h, name)),
        None => None,
    }
}

/// The home directory of the user, as `dirs::home_dir` finds it in the
/// environment. Nothing is claimed of the result: it is `None` where the
/// crate finds no home directory, and also where the path is not UTF-8.
#[verifier::external_body]
fn home_dir() -> (home: Option<String>) {
    match dirs::home_dir() {
        Some(path) => match path.to_str() {
            Some(text) => Some(text.to_owned()),
            None => None,
        },
        None => None,
    }
}

/// The user's settings directory: the directory called `name` below the
/// home directory, or `None` where no home directory is found.
pub fn resolve_settings_dir(name: &str) -> (dir: Option<String>)
    ensures
        dir matches Some(d) ==> exists|home: Seq<char>| d@ == joined_path(home, name@),
{
    let home = home_dir();
    match home {
        Some(h) => {
            let dir = settings_dir(Some(h.as_str()), name);
            proof {
                assert(dir->0@ == joined_path(h@, name@));
            }
            dir
        },
        None => None,
    }
}

} // verus!
