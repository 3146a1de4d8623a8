//! File watching: from changed paths to the commands to run again.

use vstd::prelude::*;
use crate::commands::auto::strs;
use crate::commands::command::{clone_commands, commands_view, refs_view, Command, CommandView};
use crate::path::{path_has_prefix, path_starts_with};
use crate::pattern::{any_pattern_matches, matches_any};
use crate::text::{find_text, listed, position_of};
use crate::validate::command_ids;

verus! {

/// Errors that can occur while starting the watcher.
#[derive(Debug)]
pub enum WatchError {
    /// The file watcher failed; the text says how.
    Watch(String),
    /// An input or output operation failed; the text says how.
    Io(String),
    /// No command has watching on.
    NoWatchableCommands,
}

impl WatchError {
    /// The error as a line of text.
    pub fn message(&self) -> (r: String)
        ensures
            match self {
                WatchError::Watch(m) => r@ == "Error running watch command: "@ + m@,
                WatchError::Io(m) => r@ == "IO error: "@ + m@,
                WatchError::NoWatchableCommands => r@ == "No watchable commands found"@,
            },
    {
        match self {
            WatchError::Watch(m) => {
                let mut r = String::from_str("Error running watch command: ");
                r.append(m.as_str());
                r
            },
            WatchError::Io(m) => {
                let mut r = String::from_str("IO error: ");
                r.append(m.as_str());
                r
            },
            WatchError::NoWatchableCommands => String::from_str("No watchable commands found"),
        }
    }
}

/// How long the watcher waits for further changes before it reports, in
/// seconds.
pub const DEBOUNCE_SECONDS: u64 = 5;

/// How often the watcher looks whether the wait is over, in milliseconds.
pub const TICK_MILLIS: u64 = 500;

/// How many batches of changes may wait to be looked at.
pub const WATCH_CHANNEL_CAPACITY: usize = 100;

/// What kind of change a file system event reports.
#[derive(Debug, Clone, Copy, PartialEq, Eq, Structural)]
pub enum EventKind {
    Any,
    Access,
    Create,
    Modify,
    Remove,
    Other,
}

/// A debounced file system event: its kind and the paths it concerns.
#[derive(Debug)]
pub struct WatchEvent {
    pub kind: EventKind,
    pub paths: Vec<String>,
}

/// An event counts when it creates, modifies or removes something.
pub open spec fn event_counts(kind: EventKind) -> bool {
    kind == EventKind::Create || kind == EventKind::Modify || kind == EventKind::Remove
}

/// The paths of the events that count, event after event.
pub open spec fn counted_paths(events: Seq<WatchEvent>) -> Seq<Seq<char>>
    decreases events.len(),
{
    if events.len() == 0 {
        Seq::empty()
    } else if event_counts(events.last().kind) {
        counted_paths(events.drop_last()) + strs(events.last().paths@)
    } else {
        counted_paths(events.drop_last())
    }
}

/// The paths that a batch of events reports as created, modified or removed.
pub fn changed_paths(events: &Vec<WatchEvent>) -> (r: Vec<String>)
    ensures
        strs(r@) == counted_paths(events@),
{
    let mut out: Vec<String> = Vec::new();
    let mut i: usize = 0;
    assert(events@.take(0) =~= Seq::<WatchEvent>::empty());
    assert(strs(out@) =~= counted_paths(events@.take(0)));
    while i < events.len()
        invariant
            i <= events.len(),
            strs(out@) == counted_paths(events@.take(i as int)),
        decreases events.len() - i,
    {
        proof {
            let next = events@.take(i + 1);
            assert(next.drop_last() =~= events@.take(i as int));
            assert(next.last() == events@[i as int]);
        }
        let kind = events[i].kind;
        if kind == EventKind::Create || kind == EventKind::Modify || kind == EventKind::Remove {
            let mut more = crate::commands::auto::clone_strings(&events[i].paths);
            let ghost before = strs(out@);
            let ghost added = strs(more@);
            out.append(&mut more);
            assert(strs(out@) =~= before + added);
        }
        i += 1;
    }
    assert(events@.take(i as int) =~= events@);
    out
}

/// Mathematical model of a lookup table: watched paths, each with the
/// commands that watch it.
pub type WatchTable = Seq<(Seq<char>, Seq<CommandView>)>;

/// The model of a lookup table.
pub open spec fn table_view(v: Seq<(String, Vec<Command>)>) -> WatchTable {
    Seq::new(v.len(), |i: int| (v[i].0@, commands_view(v[i].1@)))
}

/// The watched paths of a table, entry after entry.
pub open spec fn table_keys(table: WatchTable) -> Seq<Seq<char>> {
    Seq::new(table.len(), |i: int| table[i].0)
}

/// The command has watching on.
pub open spec fn watch_on(c: CommandView) -> bool {
    c.auto.watch == Some(true)
}

/// `table` with `c` added under `path`: at the end of the path's entry where
/// there is one, in a new last entry where there is none.
pub open spec fn table_with(table: WatchTable, path: Seq<char>, c: CommandView) -> WatchTable {
    let at = position_of(table_keys(table), path);
    if at < table.len() {
        table.update(at, (path, table[at].1.push(c)))
    } else {
        table.push((path, seq![c]))
    }
}

/// `table` with `c` added under each of `paths`, in order.
pub open spec fn table_with_paths(
    table: WatchTable,
    paths: Seq<Seq<char>>,
    c: CommandView,
) -> WatchTable
    decreases paths.len(),
{
    if paths.len() == 0 {
        table
    } else {
        table_with(table_with_paths(table, paths.drop_last(), c), paths.last(), c)
    }
}

/// The lookup table of a list of commands: each command with watching on,
/// under each of its watched paths.
pub open spec fn lookup_table(commands: Seq<CommandView>) -> WatchTable
    decreases commands.len(),
{
    if commands.len() == 0 {
        Seq::empty()
    } else if watch_on(commands.last()) {
        table_with_paths(
            lookup_table(commands.drop_last()),
            commands.last().auto.path,
            commands.last(),
        )
    } else {
        lookup_table(commands.drop_last())
    }
}

fn keys_of(table: &Vec<(String, Vec<Command>)>) -> (r: Vec<String>)
    ensures
        strs(r@) == table_keys(table_view(table@)),
{
    let mut out: Vec<String> = Vec::new();
    let mut i: usize = 0;
    while i < table.len()
        invariant
            i <= table.len(),
            out@.len() == i,
            forall|j: int| 0 <= j < i ==> out@[j]@ == table@[j].0@,
        decreases table.len() - i,
    {
        out.push(table[i].0.clone());
        i += 1;
    }
    assert(strs(out@) =~= table_keys(table_view(table@)));
    out
}

fn add_to_table(table: &mut Vec<(String, Vec<Command>)>, path: &String, c: &Command)
    ensures
        table_view(final(table)@) == table_with(table_view(old(table)@), path@, c@),
{
    let ghost before = table_view(table@);
    let keys = keys_of(table);
    let at = find_text(&keys, path);
    if at < table.len() {
        let mut row = clone_commands(&table[at].1);
        let ghost row_before = commands_view(row@);
        row.push(c.clone());
        assert(commands_view(row@) =~= row_before.push(c@));
        table.set(at, (path.clone(), row));
        assert(table_view(table@) =~= table_with(before, path@, c@));
    } else {
        let mut row: Vec<Command> = Vec::new();
        row.push(c.clone());
        assert(commands_view(row@) =~= seq![c@]);
        table.push((path.clone(), row));
        assert(table_view(table@) =~= table_with(before, path@, c@));
    }
}

/// Builds the table from watched paths to the commands that watch them.
pub fn path_lookup_table(commands: Vec<Command>) -> (r: Vec<(String, Vec<Command>)>)
    ensures
        table_view(r@) == lookup_table(commands_view(commands@)),
{
    let ghost all = commands_view(commands@);
    let mut table: Vec<(String, Vec<Command>)> = Vec::new();
    let mut i: usize = 0;
    assert(all.take(0) =~= Seq::<CommandView>::empty());
    assert(table_view(table@) =~= lookup_table(all.take(0)));
    while i < commands.len()
        invariant
            i <= commands.len(),
            all == commands_view(commands@),
            table_view(table@) == lookup_table(all.take(i as int)),
        decreases commands.len() - i,
    {
        proof {
            let next = all.take(i + 1);
            assert(next.drop_last() =~= all.take(i as int));
            assert(next.last() == commands@[i as int]@);
        }
        let on = match commands[i].auto.watch {
            Some(b) => b,
            None => false,
        };
        if on {
            let ghost base = table_view(table@);
            let ghost paths = commands@[i as int]@.auto.path;
            let mut k: usize = 0;
            assert(paths.take(0) =~= Seq::<Seq<char>>::empty());
            while k < commands[i].auto.path.len()
                invariant
                    i < commands.len(),
                    k <= commands[i as int].auto.path.len(),
                    paths == commands@[i as int]@.auto.path,
                    table_view(table@) == table_with_paths(
                        base,
                        paths.take(k as int),
                        commands@[i as int]@,
                    ),
                decreases commands[i as int].auto.path.len() - k,
            {
                proof {
                    let next = paths.take(k + 1);
                    assert(next.drop_last() =~= paths.take(k as int));
                    assert(next.last() == commands@[i as int].auto.path@[k as int]@);
                }
                add_to_table(&mut table, &commands[i].auto.path[k], &commands[i]);
                k += 1;
            }
            assert(paths.take(k as int) =~= paths);
        }
        i += 1;
    }
    assert(all.take(i as int) =~= all);
    table
}

/// The test of a command against a changed path: one of its patterns matches.
pub open spec fn matches_path(path: Seq<char>) -> spec_fn(CommandView) -> bool {
    |c: CommandView| any_pattern_matches(c.auto.regex, path)
}

/// The commands that a changed path triggers: for each entry whose watched
/// path it lies under, the commands of the entry with a matching pattern.
pub open spec fn matches_for_path(path: Seq<char>, table: WatchTable) -> Seq<CommandView>
    decreases table.len(),
{
    if table.len() == 0 {
        Seq::empty()
    } else if path_has_prefix(path, table.last().0) {
        matches_for_path(path, table.drop_last()) + table.last().1.filter(matches_path(path))
    } else {
        matches_for_path(path, table.drop_last())
    }
}

/// The commands that a list of changed paths triggers, path after path. A
/// command is listed once for every path and entry that triggers it.
pub open spec fn matches_for_paths(paths: Seq<Seq<char>>, table: WatchTable) -> Seq<CommandView>
    decreases paths.len(),
{
    if paths.len() == 0 {
        Seq::empty()
    } else {
        matches_for_paths(paths.drop_last(), table) + matches_for_path(paths.last(), table)
    }
}

/// The commands that the changed paths trigger, with repetitions.
pub fn commands_for_paths<'a>(
    paths: &Vec<String>,
    path_map: &'a Vec<(String, Vec<Command>)>,
) -> (r: Vec<&'a Command>)
    ensures
        refs_view(r@) == matches_for_paths(strs(paths@), table_view(path_map@)),
{
    let ghost changed = strs(paths@);
    let ghost table = table_view(path_map@);
    let mut out: Vec<&Command> = Vec::new();
    let mut p: usize = 0;
    assert(changed.take(0) =~= Seq::<Seq<char>>::empty());
    assert(refs_view(out@) =~= matches_for_paths(changed.take(0), table));
    while p < paths.len()
        invariant
            p <= paths.len(),
            changed == strs(paths@),
            table == table_view(path_map@),
            refs_view(out@) == matches_for_paths(changed.take(p as int), table),
        decreases paths.len() - p,
    {
        let ghost done = refs_view(out@);
        let ghost path = paths@[p as int]@;
        proof {
            let next = changed.take(p + 1);
            assert(next.drop_last() =~= changed.take(p as int));
            assert(next.last() == path);
            assert(table.take(0) =~= Seq::empty());
            assert(done =~= done + matches_for_path(path, table.take(0)));
        }
        let mut e: usize = 0;
        while e < path_map.len()
            invariant
                p < paths.len(),
                e <= path_map.len(),
                path == paths@[p as int]@,
                table == table_view(path_map@),
                refs_view(out@) == done + matches_for_path(path, table.take(e as int)),
            decreases path_map.len() - e,
        {
            let ghost sofar = refs_view(out@);
            let ghost row = commands_view(path_map@[e as int].1@);
            proof {
                let next = table.take(e + 1);
                assert(next.drop_last() =~= table.take(e as int));
                assert(next.last() == table[e as int]);
                assert(table[e as int].1 == row);
            }
            if path_starts_with(paths[p].as_str(), path_map[e].0.as_str()) {
                let mut c: usize = 0;
                proof {
                    reveal(Seq::filter);
                    assert(row.take(0) =~= Seq::<CommandView>::empty());
                    assert(sofar =~= sofar + row.take(0).filter(matches_path(path)));
                }
                while c < path_map[e].1.len()
                    invariant
                        p < paths.len(),
                        e < path_map.len(),
                        c <= path_map[e as int].1.len(),
                        path == paths@[p as int]@,
                        row == commands_view(path_map@[e as int].1@),
                        refs_view(out@) == sofar + row.take(c as int).filter(matches_path(path)),
                    decreases path_map[e as int].1.len() - c,
                {
                    proof {
                        reveal(Seq::filter);
                        let next = row.take(c + 1);
                        assert(next.drop_last() =~= row.take(c as int));
                        assert(next.last() == path_map@[e as int].1@[c as int]@);
                    }
                    let cmd = &path_map[e].1[c];
                    if matches_any(&cmd.auto.regex, paths[p].as_str()) {
                        let ghost before = refs_view(out@);
                        out.push(cmd);
                        assert(refs_view(out@) =~= before.push(cmd@));
                    }
                    c += 1;
                }
                assert(row.take(c as int) =~= row);
                assert(refs_view(out@) =~= done + matches_for_path(path, table.take(e + 1)));
            }
            e += 1;
        }
        assert(table.take(e as int) =~= table);
        assert(refs_view(out@) =~= matches_for_paths(changed.take(p + 1), table));
        p += 1;
    }
    assert(changed.take(p as int) =~= changed);
    out
}

/// The commands of a list without repetition: each identifier where it
/// first occurs.
pub open spec fn unique_commands(commands: Seq<CommandView>) -> Seq<CommandView>
    decreases commands.len(),
{
    if commands.len() == 0 {
        Seq::empty()
    } else {
        let init = unique_commands(commands.drop_last());
        if listed(command_ids(init), commands.last().id) {
            init
        } else {
            init.push(commands.last())
        }
    }
}

/// The commands to run again after the given paths have changed: every
/// command that some path triggers, once each, in order of first appearance.
pub fn triggered_commands(paths: &Vec<String>, path_map: &Vec<(String, Vec<Command>)>) -> (r: Vec<
    Command,
>)
    ensures
        commands_view(r@) == unique_commands(
            matches_for_paths(strs(paths@), table_view(path_map@)),
        ),
{
    let matched = commands_for_paths(paths, path_map);
    let ghost all = refs_view(matched@);
    let mut out: Vec<Command> = Vec::new();
    let mut ids: Vec<String> = Vec::new();
    let mut i: usize = 0;
    assert(all.take(0) =~= Seq::<CommandView>::empty());
    assert(commands_view(out@) =~= unique_commands(all.take(0)));
    assert(strs(ids@) =~= command_ids(commands_view(out@)));
    while i < matched.len()
        invariant
            i <= matched.len(),
            all == refs_view(matched@),
            commands_view(out@) == unique_commands(all.take(i as int)),
            strs(ids@) == command_ids(commands_view(out@)),
        decreases matched.len() - i,
    {
        proof {
            let next = all.take(i + 1);
            assert(next.drop_last() =~= all.take(i as int));
            assert(next.last() == matched@[i as int]@);
        }
        if find_text(&ids, &matched[i].id) >= ids.len() {
            let ghost before = commands_view(out@);
            let ghost ids_before = strs(ids@);
            out.push(matched[i].clone());
            ids.push(matched[i].id.clone());
            assert(commands_view(out@) =~= before.push(matched@[i as int]@));
            assert(strs(ids@) =~= ids_before.push(matched@[i as int]@.id));
            assert(strs(ids@) =~= command_ids(commands_view(out@)));
        }
        i += 1;
    }
    assert(all.take(i as int) =~= all);
    out
}

/// What the watcher needs to start: the lookup table and the paths to watch.
#[derive(Debug)]
pub struct WatchPlan {
    pub table: Vec<(String, Vec<Command>)>,
    pub paths: Vec<String>,
}

/// Plans the watching of a list of commands.
///
/// Fails with `NoWatchableCommands` exactly when the lookup table is empty;
/// otherwise gives the table and its watched paths, entry after entry.
pub fn watch_commands(commands: Vec<Command>) -> (r: Result<WatchPlan, WatchError>)
    ensures
        match r {
            Ok(plan) => {
                &&& table_view(plan.table@) == lookup_table(commands_view(commands@))
                &&& strs(plan.paths@) == table_keys(table_view(plan.table@))
                &&& plan.table@.len() > 0
            },
            Err(e) => e == WatchError::NoWatchableCommands && lookup_table(
                commands_view(commands@),
            ).len() == 0,
        },
{
    let table = path_lookup_table(commands);
    if table.len() == 0 {
        return Err(WatchError::NoWatchableCommands);
    }
    let paths = keys_of(&table);
    Ok(WatchPlan { table, paths })
}

} // verus!
