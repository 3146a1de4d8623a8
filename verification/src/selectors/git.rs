use vstd::prelude::*;
use crate::commands::auto::strs;
use crate::commands::command::{commands_view, Command, CommandView};
use crate::commands::env::{env_lookup, env_position, env_view, EnvView};
use crate::path::{join, joined, path_has_prefix, path_starts_with};
use crate::pattern::{any_pattern_matches, matches_any};
use crate::selectors::SelectorError;
use crate::text::{listed, push_all_unique, push_unique, unique_texts};

verus! {

/// Mathematical model of [`GitScan`].
pub struct ScanView {
    pub repos: EnvView,
    pub changes: Seq<(Seq<char>, Seq<Seq<char>>)>,
}

/// What was read from version control: for each watched path the root of
/// the repository it lies in, and for each repository root the paths of its
/// changed files that are not ignored, relative to the root.
#[derive(Debug)]
pub struct GitScan {
    pub repos: Vec<(String, String)>,
    pub changes: Vec<(String, Vec<String>)>,
}

impl View for GitScan {
    type V = ScanView;

    open spec fn view(&self) -> ScanView {
        ScanView {
            repos: env_view(self.repos@),
            changes: Seq::new(
                self.changes@.len(),
                |i: int| (self.changes@[i].0@, strs(self.changes@[i].1@)),
            ),
        }
    }
}

/// The index of the first entry for `root`, or the list's length.
pub open spec fn changes_position(changes: Seq<(Seq<char>, Seq<Seq<char>>)>, root: Seq<char>) -> int
    decreases changes.len(),
{
    if changes.len() == 0 {
        0
    } else if changes[0].0 == root {
        0
    } else {
        1 + changes_position(changes.drop_first(), root)
    }
}

/// The command has git selection on.
pub open spec fn git_on(c: CommandView) -> bool {
    c.auto.git == Some(true)
}

/// The changed file `change` of the repository at `root` lies under `path`
/// and matches one of `patterns`.
pub open spec fn change_counts(
    root: Seq<char>,
    change: Seq<char>,
    path: Seq<char>,
    patterns: Seq<Seq<char>>,
) -> bool {
    path_has_prefix(joined(root, change), path) && any_pattern_matches(
        patterns,
        joined(root, change),
    )
}

/// Some changed file under the watched path `path` matches one of `patterns`.
pub open spec fn path_has_changes(path: Seq<char>, patterns: Seq<Seq<char>>, scan: ScanView) -> bool {
    match env_lookup(scan.repos, path) {
        None => false,
        Some(root) => {
            let at = changes_position(scan.changes, root);
            at < scan.changes.len() && exists|j: int|
                0 <= j < scan.changes[at].1.len() && change_counts(
                    root,
                    #[trigger] scan.changes[at].1[j],
                    path,
                    patterns,
                )
        },
    }
}

/// Some changed file under one of the command's watched paths matches one
/// of its patterns.
pub open spec fn has_changes(c: CommandView, scan: ScanView) -> bool {
    exists|i: int|
        0 <= i < c.auto.path.len() && path_has_changes(#[trigger] c.auto.path[i], c.auto.regex, scan)
}

/// The test of the git-selector.
pub open spec fn git_pred(scan: ScanView) -> spec_fn(CommandView) -> bool {
    |c: CommandView| git_on(c) && has_changes(c, scan)
}

/// The test of git-enabled commands without a matching change.
pub open spec fn git_idle_pred(scan: ScanView) -> spec_fn(CommandView) -> bool {
    |c: CommandView| git_on(c) && !has_changes(c, scan)
}

/// The test of commands without git selection.
pub open spec fn not_git_pred() -> spec_fn(CommandView) -> bool {
    |c: CommandView| !git_on(c)
}

impl GitScan {
    /// The repository root recorded for the watched path `path`.
    pub fn repo_of(&self, path: &String) -> (r: Option<&String>)
        ensures
            match r {
                Some(root) => env_lookup(self@.repos, path@) == Some(root@),
                None => env_lookup(self@.repos, path@) is None,
            },
    {
        let ghost repos = self@.repos;
        let mut i: usize = 0;
        assert(repos.skip(0) =~= repos);
        while i < self.repos.len()
            invariant
                i <= self.repos.len(),
                repos == self@.repos,
                env_position(repos, path@) == i + env_position(repos.skip(i as int), path@),
            decreases self.repos.len() - i,
        {
            proof {
                let rest = repos.skip(i as int);
                assert(rest.len() > 0);
                assert(rest[0] == repos[i as int]);
                assert(repos[i as int].0 == self.repos@[i as int].0@);
                assert(rest.drop_first() =~= repos.skip(i + 1));
            }
            if self.repos[i].0.eq(path) {
                return Some(&self.repos[i].1);
            }
            i += 1;
        }
        assert(repos.skip(i as int).len() == 0);
        None
    }

    /// The index of the changes recorded for the repository at `root`, or
    /// the number of entries where none are.
    pub fn changes_at(&self, root: &String) -> (r: usize)
        ensures
            r == changes_position(self@.changes, root@),
            r <= self.changes@.len(),
    {
        let ghost changes = self@.changes;
        let mut i: usize = 0;
        assert(changes.skip(0) =~= changes);
        while i < self.changes.len()
            invariant
                i <= self.changes.len(),
                changes == self@.changes,
                changes_position(changes, root@) == i + changes_position(
                    changes.skip(i as int),
                    root@,
                ),
            decreases self.changes.len() - i,
        {
            proof {
                let rest = changes.skip(i as int);
                assert(rest.len() > 0);
                assert(rest[0] == changes[i as int]);
                assert(changes[i as int].0 == self.changes@[i as int].0@);
                assert(rest.drop_first() =~= changes.skip(i + 1));
            }
            if self.changes[i].0.eq(root) {
                return i;
            }
            i += 1;
        }
        assert(changes.skip(i as int).len() == 0);
        i
    }
}

fn watched_path_has_changes(path: &String, patterns: &Vec<String>, scan: &GitScan) -> (r: bool)
    ensures
        r == path_has_changes(path@, strs(patterns@), scan@),
{
    let root = match scan.repo_of(path) {
        Some(root) => root,
        None => {
            return false;
        },
    };
    let at = scan.changes_at(root);
    if at >= scan.changes.len() {
        return false;
    }
    let changes = &scan.changes[at].1;
    let ghost listed = scan@.changes[at as int].1;
    assert(listed == strs(changes@));
    let mut j: usize = 0;
    while j < changes.len()
        invariant
            j <= changes.len(),
            listed == strs(changes@),
            env_lookup(scan@.repos, path@) == Some(root@),
            at == changes_position(scan@.changes, root@),
            at < scan@.changes.len(),
            listed == scan@.changes[at as int].1,
            forall|k: int|
                0 <= k < j ==> !change_counts(root@, #[trigger] listed[k], path@, strs(patterns@)),
        decreases changes.len() - j,
    {
        let full = join(root.as_str(), changes[j].as_str());
        assert(listed[j as int] == changes@[j as int]@);
        if path_starts_with(full.as_str(), path.as_str()) && matches_any(patterns, full.as_str()) {
            assert(change_counts(root@, listed[j as int], path@, strs(patterns@)));
            return true;
        }
        j += 1;
    }
    false
}

/// Check whether a command has matching git changes given pre-scanned
/// repository data.
pub fn command_has_changes(cmd: &Command, scan: &GitScan) -> (r: bool)
    ensures
        r == has_changes(cmd@, scan@),
{
    let mut i: usize = 0;
    while i < cmd.auto.path.len()
        invariant
            i <= cmd.auto.path.len(),
            forall|k: int|
                0 <= k < i ==> !path_has_changes(
                    #[trigger] cmd@.auto.path[k],
                    cmd@.auto.regex,
                    scan@,
                ),
        decreases cmd.auto.path.len() - i,
    {
        assert(cmd@.auto.path[i as int] == cmd.auto.path@[i as int]@);
        if watched_path_has_changes(&cmd.auto.path[i], &cmd.auto.regex, scan) {
            return true;
        }
        i += 1;
    }
    false
}

/// Selects the git-enabled commands with a matching change.
pub struct GitSelector {}

impl GitSelector {
    /// Splits `commands` into the git-enabled ones with a matching change
    /// and the rest. The rest holds the git-enabled commands without a
    /// change first, then the commands without git selection.
    pub fn split_active_commands(commands: Vec<Command>, scan: &GitScan) -> (r: Result<
        (Vec<Command>, Vec<Command>),
        SelectorError,
    >)
        ensures
            r matches Ok((with_git, without_git)) && commands_view(with_git@) == commands_view(
                commands@,
            ).filter(git_pred(scan@)) && commands_view(without_git@) == commands_view(
                commands@,
            ).filter(git_idle_pred(scan@)) + commands_view(commands@).filter(not_git_pred()),
    {
        let ghost all = commands_view(commands@);
        let mut with_git: Vec<Command> = Vec::new();
        let mut idle: Vec<Command> = Vec::new();
        let mut non_git: Vec<Command> = Vec::new();
        let mut i: usize = 0;
        proof {
            reveal(Seq::filter);
            assert(all.take(0) =~= Seq::<CommandView>::empty());
            assert(commands_view(with_git@) =~= all.take(0).filter(git_pred(scan@)));
            assert(commands_view(idle@) =~= all.take(0).filter(git_idle_pred(scan@)));
            assert(commands_view(non_git@) =~= all.take(0).filter(not_git_pred()));
        }
        while i < commands.len()
            invariant
                i <= commands.len(),
                all == commands_view(commands@),
                commands_view(with_git@) == all.take(i as int).filter(git_pred(scan@)),
                commands_view(idle@) == all.take(i as int).filter(git_idle_pred(scan@)),
                commands_view(non_git@) == all.take(i as int).filter(not_git_pred()),
            decreases commands.len() - i,
        {
            proof {
                reveal(Seq::filter);
                let next = all.take(i + 1);
                assert(next.drop_last() =~= all.take(i as int));
                assert(next.last() == commands@[i as int]@);
            }
            let on = match commands[i].auto.git {
                Some(b) => b,
                None => false,
            };
            if !on {
                let ghost before = commands_view(non_git@);
                non_git.push(commands[i].clone());
                assert(commands_view(non_git@) =~= before.push(commands@[i as int]@));
            } else if command_has_changes(&commands[i], scan) {
                let ghost before = commands_view(with_git@);
                with_git.push(commands[i].clone());
                assert(commands_view(with_git@) =~= before.push(commands@[i as int]@));
            } else {
                let ghost before = commands_view(idle@);
                idle.push(commands[i].clone());
                assert(commands_view(idle@) =~= before.push(commands@[i as int]@));
            }
            i += 1;
        }
        assert(all.take(i as int) =~= all);
        let ghost first = commands_view(idle@);
        let ghost second = commands_view(non_git@);
        idle.append(&mut non_git);
        assert(commands_view(idle@) =~= first + second);
        Ok((with_git, idle))
    }
}

/// The watched paths of the git-enabled commands of a list, command after
/// command.
pub open spec fn git_paths(commands: Seq<CommandView>) -> Seq<Seq<char>>
    decreases commands.len(),
{
    if commands.len() == 0 {
        Seq::empty()
    } else if git_on(commands.last()) {
        git_paths(commands.drop_last()) + commands.last().auto.path
    } else {
        git_paths(commands.drop_last())
    }
}

proof fn lemma_unique_again(list: Seq<Seq<char>>)
    ensures
        unique_texts(unique_texts(list)) == unique_texts(list),
    decreases list.len(),
{
    if list.len() > 0 {
        let init = unique_texts(list.drop_last());
        lemma_unique_again(list.drop_last());
        if !listed(init, list.last()) {
            let all = init.push(list.last());
            assert(all.drop_last() =~= init);
        }
    }
}

proof fn lemma_unique_concat(a: Seq<Seq<char>>, b: Seq<Seq<char>>)
    ensures
        unique_texts(unique_texts(a) + b) == unique_texts(a + b),
    decreases b.len(),
{
    if b.len() == 0 {
        assert(unique_texts(a) + b =~= unique_texts(a));
        assert(a + b =~= a);
        lemma_unique_again(a);
    } else {
        lemma_unique_concat(a, b.drop_last());
        assert((unique_texts(a) + b).drop_last() =~= unique_texts(a) + b.drop_last());
        assert((a + b).drop_last() =~= a + b.drop_last());
    }
}

/// The paths for which a repository must be found before git selection:
/// every watched path of a git-enabled command, once each, in order of
/// first appearance.
pub fn watched_paths(commands: &Vec<Command>) -> (r: Vec<String>)
    ensures
        strs(r@) == unique_texts(git_paths(commands_view(commands@))),
{
    let ghost all = commands_view(commands@);
    let mut out: Vec<String> = Vec::new();
    let mut i: usize = 0;
    assert(all.take(0) =~= Seq::<CommandView>::empty());
    assert(strs(out@) =~= unique_texts(git_paths(all.take(0))));
    while i < commands.len()
        invariant
            i <= commands.len(),
            all == commands_view(commands@),
            strs(out@) == unique_texts(git_paths(all.take(i as int))),
        decreases commands.len() - i,
    {
        proof {
            let next = all.take(i + 1);
            assert(next.drop_last() =~= all.take(i as int));
            assert(next.last() == commands@[i as int]@);
            lemma_unique_again(git_paths(all.take(i as int)));
            lemma_unique_concat(git_paths(all.take(i as int)), commands@[i as int]@.auto.path);
        }
        let on = match commands[i].auto.git {
            Some(b) => b,
            None => false,
        };
        if on {
            push_all_unique(&mut out, &commands[i].auto.path);
        }
        i += 1;
    }
    assert(all.take(i as int) =~= all);
    out
}

/// The repository roots of an association from watched paths to roots.
pub open spec fn roots_of(repos: EnvView) -> Seq<Seq<char>> {
    Seq::new(repos.len(), |i: int| repos[i].1)
}

/// The repositories to scan: every root that some watched path lies in,
/// once each, in order of first appearance.
pub fn unique_repos(repos: &Vec<(String, String)>) -> (r: Vec<String>)
    ensures
        strs(r@) == unique_texts(roots_of(env_view(repos@))),
{
    let ghost all = roots_of(env_view(repos@));
    let mut out: Vec<String> = Vec::new();
    let mut i: usize = 0;
    assert(all.take(0) =~= Seq::<Seq<char>>::empty());
    assert(strs(out@) =~= unique_texts(all.take(0)));
    while i < repos.len()
        invariant
            i <= repos.len(),
            all == roots_of(env_view(repos@)),
            strs(out@) == unique_texts(all.take(i as int)),
        decreases repos.len() - i,
    {
        proof {
            let next = all.take(i + 1);
            assert(next.drop_last() =~= all.take(i as int));
            assert(next.last() == repos@[i as int].1@);
        }
        push_unique(&mut out, &repos[i].1);
        i += 1;
    }
    assert(all.take(i as int) =~= all);
    out
}

/// The models of the entries of a repository's status: the path of each,
/// and whether it is ignored.
pub open spec fn status_view(entries: Seq<(String, bool)>) -> Seq<(Seq<char>, bool)> {
    Seq::new(entries.len(), |i: int| (entries[i].0@, entries[i].1))
}

/// The paths of the entries that are not ignored, in order.
pub open spec fn changed_of(entries: Seq<(Seq<char>, bool)>) -> Seq<Seq<char>>
    decreases entries.len(),
{
    if entries.len() == 0 {
        Seq::empty()
    } else if entries.last().1 {
        changed_of(entries.drop_last())
    } else {
        changed_of(entries.drop_last()).push(entries.last().0)
    }
}

/// What `changed_of` keeps: a path is among the changes exactly when some
/// entry that is not ignored has it.
pub proof fn lemma_changed_of(entries: Seq<(Seq<char>, bool)>, path: Seq<char>)
    ensures
        changed_of(entries).contains(path) <==> exists|i: int|
            0 <= i < entries.len() && !(#[trigger] entries[i]).1 && entries[i].0 == path,
    decreases entries.len(),
{
    if entries.len() > 0 {
        let init = entries.drop_last();
        lemma_changed_of(init, path);
        let out = changed_of(entries);
        let rest = changed_of(init);
        if changed_of(entries).contains(path) {
            let t = choose|t: int| 0 <= t < out.len() && out[t] == path;
            if t < rest.len() {
                assert(rest[t] == path);
                let i = choose|i: int|
                    0 <= i < init.len() && !(#[trigger] init[i]).1 && init[i].0 == path;
                assert(!entries[i].1 && entries[i].0 == path);
            } else {
                assert(!entries[entries.len() - 1].1 && entries[entries.len() - 1].0 == path);
            }
        }
        if exists|i: int| 0 <= i < entries.len() && !(#[trigger] entries[i]).1 && entries[i].0 == path {
            let i = choose|i: int|
                0 <= i < entries.len() && !(#[trigger] entries[i]).1 && entries[i].0 == path;
            if i < init.len() {
                assert(!init[i].1 && init[i].0 == path);
                let t = choose|t: int| 0 <= t < rest.len() && rest[t] == path;
                assert(out[t] == path);
            } else {
                assert(out.last() == path);
            }
        }
    }
}

/// The changed paths of a repository: of the entries of its status, those
/// that are not ignored, in order.
pub fn changed_entries(entries: &Vec<(String, bool)>) -> (r: Vec<String>)
    ensures
        strs(r@) == changed_of(status_view(entries@)),
{
    let ghost all = status_view(entries@);
    let mut out: Vec<String> = Vec::new();
    let mut i: usize = 0;
    assert(all.take(0) =~= Seq::<(Seq<char>, bool)>::empty());
    assert(strs(out@) =~= changed_of(all.take(0)));
    while i < entries.len()
        invariant
            i <= entries.len(),
            all == status_view(entries@),
            strs(out@) == changed_of(all.take(i as int)),
        decreases entries.len() - i,
    {
        proof {
            let next = all.take(i + 1);
            assert(next.drop_last() =~= all.take(i as int));
            assert(next.last() == (entries@[i as int].0@, entries@[i as int].1));
        }
        if !entries[i].1 {
            let ghost before = strs(out@);
            out.push(entries[i].0.clone());
            assert(strs(out@) =~= before.push(entries@[i as int].0@));
        }
        i += 1;
    }
    assert(all.take(i as int) =~= all);
    out
}

} // verus!
