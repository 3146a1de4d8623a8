//! What inheritance guarantees.

use vstd::prelude::*;
use crate::commands::auto::AutoView;
use crate::commands::command::CommandView;
use crate::commands::group::{flat_children, flat_commands, GroupView};
use crate::commands::inherit::{
    asked_dir, auto_frame, canonical_frame, table_absolute, command_inherited, commands_inherited, common_frame,
    group_inherited, groups_inherited, lookup, resolved_paths, table_position, FrameView, Lookup,
    StopView, TableView,
};
use crate::path::{absolute, inherited_path};
use crate::validate::{
    children_nodes, command_ids, command_nodes, dep_graph, deps_resolve, deps_sound, tree_nodes,
    unresolved_at,
};

verus! {

/// The table records `path` as the canonical form of some existing path.
pub open spec fn canonical_in(table: TableView, path: Seq<char>) -> bool {
    exists|asked: Seq<char>| lookup(table, asked) == Lookup::Found(path)
}

/// The table records that `path` exists.
pub open spec fn known_dir(table: TableView, path: Seq<char>) -> bool {
    lookup(table, path) is Found
}

/// A working directory that is absolute and exists, and watched paths that
/// are all absolute canonical forms of existing paths.
pub open spec fn dirs_settled(cwd: Seq<char>, paths: Seq<Seq<char>>, table: TableView) -> bool {
    &&& absolute(cwd)
    &&& known_dir(table, cwd)
    &&& forall|i: int|
        0 <= i < paths.len() ==> absolute(#[trigger] paths[i]) && canonical_in(table, paths[i])
}

/// A command whose working directory is absolute and exists, and whose
/// watched paths are all absolute canonical forms of existing paths.
pub open spec fn settled(c: CommandView, table: TableView) -> bool {
    dirs_settled(c.cwd, c.auto.path, table)
}

/// A tree in which the same holds of every group and of every command.
pub open spec fn tree_settled(g: GroupView, table: TableView) -> bool
    decreases g,
{
    &&& dirs_settled(g.cwd, g.auto.path, table)
    &&& forall|i: int| 0 <= i < g.commands.len() ==> settled(#[trigger] g.commands[i], table)
    &&& forall|i: int| 0 <= i < g.children.len() ==> tree_settled(#[trigger] g.children[i], table)
}

proof fn lemma_table_position(table: TableView, path: Seq<char>)
    ensures
        0 <= table_position(table, path) <= table.len(),
    decreases table.len(),
{
    if table.len() > 0 && table[0].0 != path {
        lemma_table_position(table.drop_first(), path);
    }
}

/// What a table of absolute forms finds is absolute.
pub proof fn lemma_found_absolute(table: TableView, asked: Seq<char>)
    requires
        table_absolute(table),
    ensures
        lookup(table, asked) matches Lookup::Found(c) ==> absolute(c),
{
    lemma_table_position(table, asked);
    let at = table_position(table, asked);
    if at < table.len() {
        assert(table[at].1 matches Some(c) ==> absolute(c));
    }
}

/// Resolved paths are, one for one, what the table finds for the paths asked.
pub proof fn lemma_resolved_each(paths: Seq<Seq<char>>, frame: FrameView, table: TableView)
    requires
        resolved_paths(paths, frame, table) is Ok,
    ensures
        resolved_paths(paths, frame, table)->Ok_0.len() == paths.len(),
        forall|i: int|
            0 <= i < paths.len() ==> lookup(table, inherited_path(frame.cwd, #[trigger] paths[i]))
                == Lookup::Found(resolved_paths(paths, frame, table)->Ok_0[i]),
    decreases paths.len(),
{
    if paths.len() > 0 {
        let init = paths.drop_last();
        lemma_resolved_each(init, frame, table);
        assert forall|i: int| 0 <= i < paths.len() implies lookup(
            table,
            inherited_path(frame.cwd, #[trigger] paths[i]),
        ) == Lookup::Found(resolved_paths(paths, frame, table)->Ok_0[i]) by {
            if i < paths.len() - 1 {
                assert(init[i] == paths[i]);
            }
        }
    }
}

/// A canonical frame keeps everything but the paths: its working directory
/// is what the table finds for the directory asked, and its watched paths
/// are, one for one, what the table finds for them under that directory.
pub proof fn lemma_canonical_frame(frame: FrameView, table: TableView)
    requires
        canonical_frame(frame, table) is Ok,
    ensures
        ({
            let f = canonical_frame(frame, table)->Ok_0;
            &&& lookup(table, asked_dir(frame.cwd)) == Lookup::Found(f.cwd)
            &&& f.env == frame.env
            &&& f.entry_path == frame.entry_path
            &&& f.auto.watch == frame.auto.watch
            &&& f.auto.git == frame.auto.git
            &&& f.auto.always == frame.auto.always
            &&& f.auto.regex == frame.auto.regex
            &&& f.auto.path.len() == frame.auto.path.len()
            &&& forall|i: int|
                0 <= i < frame.auto.path.len() ==> lookup(
                    table,
                    inherited_path(f.cwd, #[trigger] frame.auto.path[i]),
                ) == Lookup::Found(f.auto.path[i])
        }),
{
    let cwd = lookup(table, asked_dir(frame.cwd))->Found_0;
    lemma_resolved_each(frame.auto.path, FrameView { cwd, ..frame }, table);
}

/// What inheritance under a frame leaves on a node, with a table of
/// absolute forms: a working directory that is absolute and exists, and
/// watched paths that are absolute canonical forms of existing paths.
pub proof fn lemma_node_settled(
    name: Seq<char>,
    cwd: Seq<char>,
    auto: AutoView,
    env: crate::commands::env::EnvView,
    frame: FrameView,
    table: TableView,
)
    requires
        table_absolute(table),
        canonical_frame(common_frame(name, cwd, auto, env, frame), table) is Ok,
        canonical_frame(
            auto_frame(
                auto,
                canonical_frame(common_frame(name, cwd, auto, env, frame), table)->Ok_0,
            ),
            table,
        ) is Ok,
    ensures
        ({
            let f = canonical_frame(common_frame(name, cwd, auto, env, frame), table)->Ok_0;
            let a = canonical_frame(auto_frame(auto, f), table)->Ok_0.auto;
            dirs_settled(f.cwd, a.path, table)
        }),
{
    let f0 = common_frame(name, cwd, auto, env, frame);
    lemma_canonical_frame(f0, table);
    lemma_found_absolute(table, asked_dir(f0.cwd));
    let f = canonical_frame(f0, table)->Ok_0;
    let fa = auto_frame(auto, f);
    lemma_canonical_frame(fa, table);
    let fb = canonical_frame(fa, table)->Ok_0;
    assert(asked_dir(f.cwd) == f.cwd);
    assert forall|i: int| 0 <= i < fb.auto.path.len() implies absolute(#[trigger] fb.auto.path[i])
        && canonical_in(table, fb.auto.path[i]) by {
        let asked = inherited_path(fb.cwd, fa.auto.path[i]);
        assert(lookup(table, asked) == Lookup::Found(fb.auto.path[i]));
        lemma_found_absolute(table, asked);
    }
}

/// After inheritance with a table of absolute forms, a command is settled.
pub proof fn lemma_command_settled(c: CommandView, frame: FrameView, table: TableView)
    requires
        table_absolute(table),
        command_inherited(c, frame, table) is Ok,
    ensures
        settled(command_inherited(c, frame, table)->Ok_0, table),
{
    lemma_node_settled(c.name, c.cwd, c.auto, c.env, frame, table);
}

/// Inherited commands are, one for one, the inherited forms of the commands.
pub proof fn lemma_commands_each(cs: Seq<CommandView>, frame: FrameView, table: TableView)
    requires
        commands_inherited(cs, frame, table) is Ok,
    ensures
        commands_inherited(cs, frame, table)->Ok_0.len() == cs.len(),
        forall|i: int|
            0 <= i < cs.len() ==> command_inherited(#[trigger] cs[i], frame, table) == Ok::<
                CommandView,
                StopView,
            >(commands_inherited(cs, frame, table)->Ok_0[i]),
    decreases cs.len(),
{
    if cs.len() > 0 {
        let init = cs.drop_last();
        lemma_commands_each(init, frame, table);
        assert forall|i: int| 0 <= i < cs.len() implies command_inherited(
            #[trigger] cs[i],
            frame,
            table,
        ) == Ok::<CommandView, StopView>(commands_inherited(cs, frame, table)->Ok_0[i]) by {
            if i < cs.len() - 1 {
                assert(init[i] == cs[i]);
            }
        }
    }
}

/// Inherited groups are, one for one, the inherited forms of the groups.
pub proof fn lemma_groups_each(gs: Seq<GroupView>, frame: FrameView, table: TableView)
    requires
        groups_inherited(gs, frame, table) is Ok,
    ensures
        groups_inherited(gs, frame, table)->Ok_0.len() == gs.len(),
        forall|i: int|
            0 <= i < gs.len() ==> group_inherited(#[trigger] gs[i], frame, table) == Ok::<
                GroupView,
                StopView,
            >(groups_inherited(gs, frame, table)->Ok_0[i]),
    decreases gs.len(),
{
    if gs.len() > 0 {
        let init = gs.drop_last();
        lemma_groups_each(init, frame, table);
        assert forall|i: int| 0 <= i < gs.len() implies group_inherited(
            #[trigger] gs[i],
            frame,
            table,
        ) == Ok::<GroupView, StopView>(groups_inherited(gs, frame, table)->Ok_0[i]) by {
            if i < gs.len() - 1 {
                assert(init[i] == gs[i]);
            }
        }
    }
}

/// Every command of the list is settled.
pub open spec fn all_settled(cs: Seq<CommandView>, table: TableView) -> bool {
    forall|i: int| 0 <= i < cs.len() ==> settled(#[trigger] cs[i], table)
}

/// After loading, every working directory is absolute and exists, and
/// every path in the rules is the absolute canonical form of an existing
/// path: this holds of every group and every command of a tree that
/// inheritance has settled, whatever the frame it started from.
pub proof fn lemma_tree_settled(g: GroupView, frame: FrameView, table: TableView)
    requires
        table_absolute(table),
        group_inherited(g, frame, table) is Ok,
    ensures
        tree_settled(group_inherited(g, frame, table)->Ok_0, table),
        all_settled(flat_commands(group_inherited(g, frame, table)->Ok_0), table),
    decreases g, 1int,
{
    let r = group_inherited(g, frame, table)->Ok_0;
    let f0 = common_frame(g.name, g.cwd, g.auto, g.env, frame);
    lemma_node_settled(g.name, g.cwd, g.auto, g.env, frame, table);
    let f = canonical_frame(f0, table)->Ok_0;
    lemma_commands_each(g.commands, f, table);
    assert forall|i: int| 0 <= i < r.commands.len() implies settled(
        #[trigger] r.commands[i],
        table,
    ) by {
        assert(command_inherited(g.commands[i], f, table) is Ok);
        lemma_command_settled(g.commands[i], f, table);
    }
    lemma_children_settled(g.children, f, table);
    lemma_groups_each(g.children, f, table);
    assert forall|i: int| 0 <= i < r.children.len() implies tree_settled(
        #[trigger] r.children[i],
        table,
    ) by {
        assert(group_inherited(g.children[i], f, table) == Ok::<GroupView, StopView>(
            r.children[i],
        ));
        lemma_tree_settled(g.children[i], f, table);
    }
}

/// The same, of the commands under each group of a list.
pub proof fn lemma_children_settled(gs: Seq<GroupView>, frame: FrameView, table: TableView)
    requires
        table_absolute(table),
        groups_inherited(gs, frame, table) is Ok,
    ensures
        all_settled(flat_children(groups_inherited(gs, frame, table)->Ok_0), table),
    decreases gs, 0int,
{
    if gs.len() > 0 {
        let rs = groups_inherited(gs, frame, table)->Ok_0;
        let init = groups_inherited(gs.drop_last(), frame, table)->Ok_0;
        let last = group_inherited(gs.last(), frame, table)->Ok_0;
        assert(rs == init.push(last));
        assert(rs.drop_last() =~= init);
        lemma_children_settled(gs.drop_last(), frame, table);
        lemma_tree_settled(gs.last(), frame, table);
    }
}

/// A command that is watched and names no path, under a frame that names
/// none either, watches its own working directory: its one watched path is
/// the canonical form of that directory, where the directory is absolute,
/// as it is after loading.
pub proof fn lemma_watch_defaults_to_cwd(c: CommandView, frame: FrameView, table: TableView)
    requires
        c.auto.watch == Some(true),
        c.auto.path.len() == 0,
        frame.auto.path.len() == 0,
        command_inherited(c, frame, table) is Ok,
    ensures
        ({
            let r = command_inherited(c, frame, table)->Ok_0;
            &&& r.auto.path.len() == 1
            &&& absolute(r.cwd) ==> lookup(table, r.cwd) == Lookup::Found(r.auto.path[0])
        }),
{
    let f0 = common_frame(c.name, c.cwd, c.auto, c.env, frame);
    lemma_canonical_frame(f0, table);
    let f = canonical_frame(f0, table)->Ok_0;
    assert(f.auto.path.len() == 0);
    let fa = auto_frame(c.auto, f);
    assert(fa.auto.path =~= seq![f.cwd]);
    lemma_canonical_frame(fa, table);
    assert(fa.auto.path[0] == f.cwd);
}

/// Under a frame that sets none of the three switches, a command keeps its
/// own switches, set or unset: nothing empty is inherited.
pub proof fn lemma_inert_frame_keeps_switches(c: CommandView, frame: FrameView, table: TableView)
    requires
        frame.auto.watch is None,
        frame.auto.git is None,
        frame.auto.always is None,
        command_inherited(c, frame, table) is Ok,
    ensures
        ({
            let r = command_inherited(c, frame, table)->Ok_0;
            r.auto.watch == c.auto.watch && r.auto.git == c.auto.git && r.auto.always
                == c.auto.always
        }),
{
    let f0 = common_frame(c.name, c.cwd, c.auto, c.env, frame);
    lemma_canonical_frame(f0, table);
    let f = canonical_frame(f0, table)->Ok_0;
    lemma_canonical_frame(auto_frame(c.auto, f), table);
}

/// The same, of a child group and of the frame it hands down: under a frame
/// that sets no switch, a group keeps its own switches and hands down no
/// others.
pub proof fn lemma_inert_frame_keeps_group_switches(
    g: GroupView,
    frame: FrameView,
    table: TableView,
)
    requires
        frame.auto.watch is None,
        frame.auto.git is None,
        frame.auto.always is None,
        group_inherited(g, frame, table) is Ok,
    ensures
        ({
            let r = group_inherited(g, frame, table)->Ok_0;
            r.auto.watch == g.auto.watch && r.auto.git == g.auto.git && r.auto.always
                == g.auto.always
        }),
{
    let f0 = common_frame(g.name, g.cwd, g.auto, g.env, frame);
    lemma_canonical_frame(f0, table);
    let f = canonical_frame(f0, table)->Ok_0;
    lemma_canonical_frame(auto_frame(g.auto, f), table);
}

/// Two lists of commands that agree, one for one, on what validation and
/// scheduling read: identifier, name, shell string, dependencies, scrollback.
pub open spec fn same_wiring(a: Seq<CommandView>, b: Seq<CommandView>) -> bool {
    &&& a.len() == b.len()
    &&& forall|i: int|
        0 <= i < a.len() ==> {
            &&& (#[trigger] a[i]).id == b[i].id
            &&& a[i].name == b[i].name
            &&& a[i].cmd == b[i].cmd
            &&& a[i].depends_on == b[i].depends_on
            &&& a[i].scrollback == b[i].scrollback
        }
}

/// Inheritance leaves a command's identifier, name, shell string,
/// dependencies and scrollback as they were.
pub proof fn lemma_commands_keep_wiring(cs: Seq<CommandView>, frame: FrameView, table: TableView)
    requires
        commands_inherited(cs, frame, table) is Ok,
    ensures
        same_wiring(commands_inherited(cs, frame, table)->Ok_0, cs),
{
    lemma_commands_each(cs, frame, table);
    let rs = commands_inherited(cs, frame, table)->Ok_0;
    assert forall|i: int| 0 <= i < rs.len() implies {
        &&& (#[trigger] rs[i]).id == cs[i].id
        &&& rs[i].name == cs[i].name
        &&& rs[i].cmd == cs[i].cmd
        &&& rs[i].depends_on == cs[i].depends_on
        &&& rs[i].scrollback == cs[i].scrollback
    } by {
        assert(command_inherited(cs[i], frame, table) == Ok::<CommandView, StopView>(rs[i]));
    }
}

proof fn lemma_wiring_concat(
    a1: Seq<CommandView>,
    b1: Seq<CommandView>,
    a2: Seq<CommandView>,
    b2: Seq<CommandView>,
)
    requires
        same_wiring(a1, b1),
        same_wiring(a2, b2),
    ensures
        same_wiring(a1 + a2, b1 + b2),
{
    assert forall|i: int| 0 <= i < (a1 + a2).len() implies {
        &&& (#[trigger] (a1 + a2)[i]).id == (b1 + b2)[i].id
        &&& (a1 + a2)[i].name == (b1 + b2)[i].name
        &&& (a1 + a2)[i].cmd == (b1 + b2)[i].cmd
        &&& (a1 + a2)[i].depends_on == (b1 + b2)[i].depends_on
        &&& (a1 + a2)[i].scrollback == (b1 + b2)[i].scrollback
    } by {
        if i < a1.len() {
            assert(a1[i].id == b1[i].id);
        } else {
            assert(a2[i - a1.len()].id == b2[i - a1.len()].id);
        }
    }
}

/// Inheritance changes neither which commands a tree holds, nor their
/// order, identifiers or dependencies.
pub proof fn lemma_tree_keeps_wiring(g: GroupView, frame: FrameView, table: TableView)
    requires
        group_inherited(g, frame, table) is Ok,
    ensures
        same_wiring(flat_commands(group_inherited(g, frame, table)->Ok_0), flat_commands(g)),
    decreases g, 1int,
{
    let f = canonical_frame(common_frame(g.name, g.cwd, g.auto, g.env, frame), table)->Ok_0;
    lemma_commands_keep_wiring(g.commands, f, table);
    lemma_children_keep_wiring(g.children, f, table);
    let r = group_inherited(g, frame, table)->Ok_0;
    lemma_wiring_concat(
        r.commands,
        g.commands,
        flat_children(r.children),
        flat_children(g.children),
    );
}

/// The same, of the commands under each group of a list.
pub proof fn lemma_children_keep_wiring(gs: Seq<GroupView>, frame: FrameView, table: TableView)
    requires
        groups_inherited(gs, frame, table) is Ok,
    ensures
        same_wiring(
            flat_children(groups_inherited(gs, frame, table)->Ok_0),
            flat_children(gs),
        ),
    decreases gs, 0int,
{
    if gs.len() > 0 {
        let rs = groups_inherited(gs, frame, table)->Ok_0;
        let init = groups_inherited(gs.drop_last(), frame, table)->Ok_0;
        let last = group_inherited(gs.last(), frame, table)->Ok_0;
        assert(rs == init.push(last));
        assert(rs.drop_last() =~= init);
        lemma_children_keep_wiring(gs.drop_last(), frame, table);
        lemma_tree_keeps_wiring(gs.last(), frame, table);
        lemma_wiring_concat(
            flat_children(init),
            flat_children(gs.drop_last()),
            flat_commands(last),
            flat_commands(gs.last()),
        );
    }
}

/// Inheritance changes no node's identifier, name or shell string, nor the
/// order in which the tree is walked.
pub proof fn lemma_tree_keeps_nodes(g: GroupView, frame: FrameView, table: TableView)
    requires
        group_inherited(g, frame, table) is Ok,
    ensures
        tree_nodes(group_inherited(g, frame, table)->Ok_0) == tree_nodes(g),
    decreases g, 1int,
{
    let f = canonical_frame(common_frame(g.name, g.cwd, g.auto, g.env, frame), table)->Ok_0;
    lemma_commands_keep_wiring(g.commands, f, table);
    lemma_children_keep_nodes(g.children, f, table);
    let r = group_inherited(g, frame, table)->Ok_0;
    assert(command_nodes(r.commands) =~= command_nodes(g.commands));
}

/// The same, of the nodes under each group of a list.
pub proof fn lemma_children_keep_nodes(gs: Seq<GroupView>, frame: FrameView, table: TableView)
    requires
        groups_inherited(gs, frame, table) is Ok,
    ensures
        children_nodes(groups_inherited(gs, frame, table)->Ok_0) == children_nodes(gs),
    decreases gs, 0int,
{
    if gs.len() > 0 {
        let rs = groups_inherited(gs, frame, table)->Ok_0;
        let init = groups_inherited(gs.drop_last(), frame, table)->Ok_0;
        let last = group_inherited(gs.last(), frame, table)->Ok_0;
        assert(rs == init.push(last));
        assert(rs.drop_last() =~= init);
        lemma_children_keep_nodes(gs.drop_last(), frame, table);
        lemma_tree_keeps_nodes(gs.last(), frame, table);
    }
}

/// Lists of commands that agree on identifiers and dependencies have the
/// same dependency graph.
pub proof fn lemma_wiring_graph(a: Seq<CommandView>, b: Seq<CommandView>)
    requires
        same_wiring(a, b),
    ensures
        command_ids(a) == command_ids(b),
        dep_graph(a) == dep_graph(b),
        deps_sound(a) == deps_sound(b),
{
    assert(command_ids(a) =~= command_ids(b));
    assert forall|i: int| 0 <= i < a.len() implies dep_graph(a)[i] =~= dep_graph(b)[i] by {
        assert(a[i].depends_on == b[i].depends_on);
    }
    assert(dep_graph(a) =~= dep_graph(b));
    assert forall|i: int, k: int| 0 <= i < a.len() && 0 <= k < a[i].depends_on.len() implies (
    #[trigger] unresolved_at(a, i, k) == unresolved_at(b, i, k)) by {
        assert(a[i].depends_on == b[i].depends_on);
    }
    assert(deps_resolve(a) == deps_resolve(b)) by {
        if deps_resolve(a) {
            assert forall|i: int, k: int|
                0 <= i < b.len() && 0 <= k < b[i].depends_on.len() implies !#[trigger] unresolved_at(
                b,
                i,
                k,
            ) by {
                assert(a[i].depends_on == b[i].depends_on);
                assert(!unresolved_at(a, i, k));
            }
        }
        if deps_resolve(b) {
            assert forall|i: int, k: int|
                0 <= i < a.len() && 0 <= k < a[i].depends_on.len() implies !#[trigger] unresolved_at(
                a,
                i,
                k,
            ) by {
                assert(a[i].depends_on == b[i].depends_on);
                assert(!unresolved_at(b, i, k));
            }
        }
    }
}

} // verus!
