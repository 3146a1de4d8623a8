//! Selectors: which commands are relevant right now.
//!
//! A selector splits a list of commands into those it selects and the rest.
//! The pipeline asks the always-selector first and hands what it leaves to
//! the git-selector.

use vstd::prelude::*;
use crate::commands::auto::strs;
use crate::commands::command::{clone_commands, commands_view, Command, CommandView};
use crate::text::unique_texts;

pub mod always;
pub mod git;
pub mod watch;

use crate::selectors::always::{always_pred, not_always_pred, AlwaysSelector};
use crate::selectors::git::{
    git_on, git_paths, git_pred, has_changes, watched_paths, GitScan, GitSelector, ScanView,
};

verus! {

/// Errors that can occur during selector operations.
#[derive(Debug)]
pub enum SelectorError {
    /// The version-control machinery failed; the text says how.
    Git(String),
}

impl SelectorError {
    /// The error as a line of text.
    pub fn message(&self) -> (r: String)
        ensures
            match self {
                SelectorError::Git(m) => r@ == "Git operation failed: "@ + m@,
            },
    {
        match self {
            SelectorError::Git(m) => {
                let mut r = String::from_str("Git operation failed: ");
                r.append(m.as_str());
                r
            },
        }
    }
}

/// The commands that the pipeline selects: those that always run, then,
/// among the others, those with git selection on and a matching change.
pub open spec fn selection(commands: Seq<CommandView>, scan: ScanView) -> Seq<CommandView> {
    commands.filter(always_pred()) + commands.filter(not_always_pred()).filter(git_pred(scan))
}

/// Runs all selectors and returns the selected commands: always-selected
/// first, then git-selected, each in the order of `commands`.
pub fn get_selected_commands(commands: Vec<Command>, scan: &GitScan) -> (r: Result<
    Vec<Command>,
    SelectorError,
>)
    ensures
        r matches Ok(selected) && commands_view(selected@) == selection(
            commands_view(commands@),
            scan@,
        ),
{
    let ghost all = commands_view(commands@);
    let (mut always_commands, unselected) = match AlwaysSelector::split_active_commands(commands) {
        Ok(parts) => parts,
        Err(e) => {
            return Err(e);
        },
    };
    let (mut git_commands, _) = match GitSelector::split_active_commands(unselected, scan) {
        Ok(parts) => parts,
        Err(e) => {
            return Err(e);
        },
    };
    let ghost first = commands_view(always_commands@);
    let ghost second = commands_view(git_commands@);
    always_commands.append(&mut git_commands);
    assert(commands_view(always_commands@) =~= first + second);
    Ok(always_commands)
}

/// A command that always runs is selected.
pub proof fn lemma_always_selected(commands: Seq<CommandView>, scan: ScanView, i: int)
    requires
        0 <= i < commands.len(),
        commands[i].auto.always == Some(true),
    ensures
        selection(commands, scan).contains(commands[i]),
{
    let part = commands.filter(always_pred());
    assert(always_pred()(commands[i]));
    commands.lemma_filter_contains(always_pred(), i);
    assert(part.contains(commands[i]));
    let k = choose|k: int| 0 <= k < part.len() && part[k] == commands[i];
    assert(selection(commands, scan)[k] == commands[i]);
}

/// A command with git selection on that does not always run is selected
/// exactly when some changed file under one of its watched paths matches one
/// of its patterns.
pub proof fn lemma_git_selected_iff(commands: Seq<CommandView>, scan: ScanView, c: CommandView)
    requires
        commands.contains(c),
        git_on(c),
        c.auto.always != Some(true),
    ensures
        selection(commands, scan).contains(c) <==> has_changes(c, scan),
{
    let first = commands.filter(always_pred());
    let rest = commands.filter(not_always_pred());
    let second = rest.filter(git_pred(scan));
    let sel = selection(commands, scan);
    if has_changes(c, scan) {
        let i = choose|i: int| 0 <= i < commands.len() && commands[i] == c;
        assert(not_always_pred()(commands[i]));
        commands.lemma_filter_contains(not_always_pred(), i);
        assert(rest.contains(c));
        let j = choose|j: int| 0 <= j < rest.len() && rest[j] == c;
        assert(git_pred(scan)(rest[j]));
        rest.lemma_filter_contains(git_pred(scan), j);
        assert(second.contains(c));
        let k = choose|k: int| 0 <= k < second.len() && second[k] == c;
        assert(sel[first.len() + k] == c);
    }
    if sel.contains(c) {
        let k = choose|k: int| 0 <= k < sel.len() && sel[k] == c;
        if k < first.len() {
            commands.lemma_filter_pred(always_pred(), k);
            assert(always_pred()(first[k]));
        } else {
            rest.lemma_filter_pred(git_pred(scan), k - first.len());
            assert(git_pred(scan)(second[k - first.len()]));
        }
    }
}

/// The paths for which a repository must be found and scanned before the
/// selection: the watched paths of the git-enabled commands that the
/// always-selector leaves, once each, in order of first appearance. The
/// paths of a command that runs unconditionally are not looked at.
pub fn paths_to_scan(commands: &Vec<Command>) -> (r: Vec<String>)
    ensures
        strs(r@) == unique_texts(
            git_paths(commands_view(commands@).filter(not_always_pred())),
        ),
{
    match AlwaysSelector::split_active_commands(clone_commands(commands)) {
        Ok((_, other)) => watched_paths(&other),
        Err(_) => Vec::new(),
    }
}

} // verus!
