//! The pre-commit hook: what it holds and when it may be written.

use vstd::prelude::*;
use vstd::string::*;
use crate::path::{join, joined};
use crate::text::concat3;

verus! {

/// Errors of installing the hook.
#[derive(Debug)]
pub enum InitHooksError {
    /// No repository was found; the text says how the search ended.
    NoRepo(String),
    /// A hook exists at this path and overwriting was not asked for.
    HookExists(String),
    /// Writing failed; the text says how.
    Io(String),
}

impl InitHooksError {
    /// The error as a line of text.
    pub fn message(&self) -> (r: String)
        ensures
            match self {
                InitHooksError::NoRepo(m) => r@ == "git repository not found: "@ + m@,
                InitHooksError::HookExists(p) => r@ == "pre-commit hook already exists at "@ + p@
                    + " (use --force to overwrite)"@,
                InitHooksError::Io(m) => r@ == "failed to write hook: "@ + m@,
            },
    {
        match self {
            InitHooksError::NoRepo(m) => crate::text::concat2("git repository not found: ", m.as_str()),
            InitHooksError::HookExists(p) => concat3(
                "pre-commit hook already exists at ",
                p.as_str(),
                " (use --force to overwrite)",
            ),
            InitHooksError::Io(m) => crate::text::concat2("failed to write hook: ", m.as_str()),
        }
    }
}

/// What the hook holds.
pub fn hook_contents() -> (r: &'static str)
    ensures
        r@ == "#!/bin/sh\n# Installed by fnug init-hooks\nfnug check --fail-fast --mute-success\n"@,
{
    "#!/bin/sh\n# Installed by fnug init-hooks\nfnug check --fail-fast --mute-success\n"
}

/// The permission bits of the hook: readable and executable by all,
/// writable by its owner.
pub const HOOK_MODE: u32 = 0o755;

/// Where the hook goes in a repository.
#[derive(Debug)]
pub struct HookPlan {
    /// The directory of the hooks.
    pub hooks_dir: String,
    /// The path of the pre-commit hook.
    pub hook_path: String,
}

/// Where the hook goes in the repository whose administrative directory is
/// `git_dir`.
pub fn hook_plan(git_dir: &str) -> (r: HookPlan)
    ensures
        r.hooks_dir@ == joined(git_dir@, "hooks"@),
        r.hook_path@ == joined(joined(git_dir@, "hooks"@), "pre-commit"@),
{
    let hooks_dir = join(git_dir, "hooks");
    let hook_path = join(hooks_dir.as_str(), "pre-commit");
    HookPlan { hooks_dir, hook_path }
}

/// Decides whether the hook may be written: it may unless one exists and
/// overwriting was not asked for.
pub fn run(plan: &HookPlan, present: bool, force: bool) -> (r: Result<(), InitHooksError>)
    ensures
        r is Ok <==> (!present || force),
        r matches Err(e) ==> (e matches InitHooksError::HookExists(p) && p@ == plan.hook_path@),
{
    if present && !force {
        Err(InitHooksError::HookExists(plan.hook_path.clone()))
    } else {
        Ok(())
    }
}

} // verus!
