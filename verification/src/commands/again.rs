//! Inheritance run twice changes nothing.

use vstd::prelude::*;
use crate::commands::auto::AutoView;
use crate::commands::command::CommandView;
use crate::commands::env::{env_unique, lemma_env_merged_again, lemma_env_merged_unique, EnvView};
use crate::commands::group::GroupView;
use crate::commands::inherit::{
    asked_dir, auto_frame, auto_inherited, canonical_frame, command_inherited, commands_inherited,
    common_frame, group_inherited, groups_inherited, lookup, resolved_paths, root_frame,
    table_absolute, table_fixed, FrameView, Lookup, StopView, TableView,
};
use crate::commands::laws::{
    lemma_canonical_frame, lemma_commands_each, lemma_found_absolute, lemma_groups_each,
};
use crate::path::{absolute, inherited_path};

verus! {

/// Two frames that hand down the same working directory, switches,
/// patterns and environment; their watched paths may differ.
pub open spec fn frames_agree(a: FrameView, b: FrameView) -> bool {
    &&& a.cwd == b.cwd
    &&& a.auto.watch == b.auto.watch
    &&& a.auto.git == b.auto.git
    &&& a.auto.always == b.auto.always
    &&& a.auto.regex == b.auto.regex
    &&& a.env == b.env
}

proof fn lemma_resolved_fixed(paths: Seq<Seq<char>>, frame: FrameView, table: TableView)
    requires
        forall|i: int|
            0 <= i < paths.len() ==> absolute(#[trigger] paths[i]) && lookup(table, paths[i])
                == Lookup::Found(paths[i]),
    ensures
        resolved_paths(paths, frame, table) == Ok::<Seq<Seq<char>>, StopView>(paths),
    decreases paths.len(),
{
    if paths.len() > 0 {
        let init = paths.drop_last();
        assert forall|i: int| 0 <= i < init.len() implies absolute(#[trigger] init[i]) && lookup(
            table,
            init[i],
        ) == Lookup::Found(init[i]) by {
            assert(init[i] == paths[i]);
        }
        lemma_resolved_fixed(init, frame, table);
        let last = paths[paths.len() - 1];
        assert(absolute(last) && lookup(table, last) == Lookup::Found(last));
        assert(inherited_path(frame.cwd, last) == last);
        assert(init.push(last) =~= paths);
    } else {
        assert(paths =~= Seq::<Seq<char>>::empty());
    }
}

/// What one node keeps when inheritance runs again. After a first run under
/// `fa` gave the frame `f` and the rules `auto1`, a second run under a frame
/// `fb` that agrees with `fa` gives a frame that agrees with `f` and has its
/// working directory and environment, and the same rules.
proof fn lemma_node_again(
    name: Seq<char>,
    cwd0: Seq<char>,
    auto0: AutoView,
    env0: EnvView,
    fa: FrameView,
    fb: FrameView,
    table: TableView,
)
    requires
        frames_agree(fa, fb),
        env_unique(fa.env),
        table_absolute(table),
        table_fixed(table),
        canonical_frame(common_frame(name, cwd0, auto0, env0, fa), table) is Ok,
        auto_inherited(
            auto0,
            canonical_frame(common_frame(name, cwd0, auto0, env0, fa), table)->Ok_0,
            table,
        ) is Ok,
    ensures
        ({
            let f = canonical_frame(common_frame(name, cwd0, auto0, env0, fa), table)->Ok_0;
            let auto1 = auto_inherited(auto0, f, table)->Ok_0;
            let again = canonical_frame(common_frame(name, f.cwd, auto1, f.env, fb), table);
            &&& again is Ok
            &&& frames_agree(f, again->Ok_0)
            &&& env_unique(f.env)
            &&& auto_inherited(auto1, again->Ok_0, table) == Ok::<AutoView, StopView>(auto1)
        }),
{
    let f0 = common_frame(name, cwd0, auto0, env0, fa);
    lemma_canonical_frame(f0, table);
    lemma_found_absolute(table, asked_dir(f0.cwd));
    let f = canonical_frame(f0, table)->Ok_0;
    assert(lookup(table, asked_dir(f0.cwd)) == Lookup::Found(f.cwd));
    assert(lookup(table, f.cwd) == Lookup::Found(f.cwd));
    lemma_env_merged_unique(fa.env, env0);
    lemma_env_merged_again(fa.env, env0);
    let fa1 = auto_frame(auto0, f);
    lemma_canonical_frame(fa1, table);
    let fb1 = canonical_frame(fa1, table)->Ok_0;
    assert(fb1.cwd == f.cwd);
    let auto1 = auto_inherited(auto0, f, table)->Ok_0;
    assert(auto1.path.len() > 0);
    assert forall|i: int| 0 <= i < auto1.path.len() implies absolute(#[trigger] auto1.path[i])
        && lookup(table, auto1.path[i]) == Lookup::Found(auto1.path[i]) by {
        let asked = inherited_path(fb1.cwd, fa1.auto.path[i]);
        assert(lookup(table, asked) == Lookup::Found(auto1.path[i]));
        lemma_found_absolute(table, asked);
    }
    let g0 = common_frame(name, f.cwd, auto1, f.env, fb);
    assert(g0.cwd == f.cwd);
    assert(g0.env == f.env);
    assert(g0.auto.path == auto1.path);
    lemma_resolved_fixed(g0.auto.path, g0, table);
    let again = canonical_frame(g0, table);
    assert(again is Ok);
    let g = again->Ok_0;
    assert(g.auto.path == auto1.path);
    assert(frames_agree(f, g));
    let ga = auto_frame(auto1, g);
    assert(ga.auto.watch == auto1.watch);
    assert(ga.auto.git == auto1.git);
    assert(ga.auto.always == auto1.always);
    assert(ga.auto.regex == auto1.regex);
    assert(ga.auto.path == auto1.path);
    lemma_resolved_fixed(ga.auto.path, ga, table);
    assert(canonical_frame(ga, table)->Ok_0.auto == auto1);
}

/// A command settled under a frame comes out as it is when it is settled
/// again under a frame that agrees.
pub proof fn lemma_command_again(c: CommandView, fa: FrameView, fb: FrameView, table: TableView)
    requires
        frames_agree(fa, fb),
        env_unique(fa.env),
        table_absolute(table),
        table_fixed(table),
        command_inherited(c, fa, table) is Ok,
    ensures
        command_inherited(command_inherited(c, fa, table)->Ok_0, fb, table) == Ok::<
            CommandView,
            StopView,
        >(command_inherited(c, fa, table)->Ok_0),
{
    lemma_node_again(c.name, c.cwd, c.auto, c.env, fa, fb, table);
}

/// The same, of a list of commands.
pub proof fn lemma_commands_again(
    cs: Seq<CommandView>,
    fa: FrameView,
    fb: FrameView,
    table: TableView,
)
    requires
        frames_agree(fa, fb),
        env_unique(fa.env),
        table_absolute(table),
        table_fixed(table),
        commands_inherited(cs, fa, table) is Ok,
    ensures
        commands_inherited(commands_inherited(cs, fa, table)->Ok_0, fb, table) == Ok::<
            Seq<CommandView>,
            StopView,
        >(commands_inherited(cs, fa, table)->Ok_0),
    decreases cs.len(),
{
    if cs.len() > 0 {
        let init = cs.drop_last();
        lemma_commands_again(init, fa, fb, table);
        lemma_command_again(cs.last(), fa, fb, table);
        let once_init = commands_inherited(init, fa, table)->Ok_0;
        let once_last = command_inherited(cs.last(), fa, table)->Ok_0;
        let once = commands_inherited(cs, fa, table)->Ok_0;
        assert(once == once_init.push(once_last));
        assert(once.drop_last() =~= once_init);
        assert(once.last() == once_last);
    }
}

/// Loading a configuration and running inheritance on the result again is
/// a no-op: a tree settled under a frame comes out as it is, in every
/// working directory, rule and environment, when it is settled again under
/// a frame that agrees. This holds where the frame's environment holds no
/// variable twice and the canonical forms in the table are absolute and
/// resolve to themselves.
pub proof fn lemma_group_again(g: GroupView, fa: FrameView, fb: FrameView, table: TableView)
    requires
        frames_agree(fa, fb),
        env_unique(fa.env),
        table_absolute(table),
        table_fixed(table),
        group_inherited(g, fa, table) is Ok,
    ensures
        group_inherited(group_inherited(g, fa, table)->Ok_0, fb, table) == Ok::<
            GroupView,
            StopView,
        >(group_inherited(g, fa, table)->Ok_0),
    decreases g, 1int,
{
    lemma_node_again(g.name, g.cwd, g.auto, g.env, fa, fb, table);
    let f = canonical_frame(common_frame(g.name, g.cwd, g.auto, g.env, fa), table)->Ok_0;
    let once = group_inherited(g, fa, table)->Ok_0;
    let again = canonical_frame(
        common_frame(once.name, once.cwd, once.auto, once.env, fb),
        table,
    )->Ok_0;
    lemma_commands_again(g.commands, f, again, table);
    lemma_groups_again(g.children, f, again, table);
    let twice = group_inherited(once, fb, table)->Ok_0;
    assert(twice.commands == once.commands);
    assert(twice.children == once.children);
    assert(twice == once);
}

/// The same, of a list of groups.
pub proof fn lemma_groups_again(gs: Seq<GroupView>, fa: FrameView, fb: FrameView, table: TableView)
    requires
        frames_agree(fa, fb),
        env_unique(fa.env),
        table_absolute(table),
        table_fixed(table),
        groups_inherited(gs, fa, table) is Ok,
    ensures
        groups_inherited(groups_inherited(gs, fa, table)->Ok_0, fb, table) == Ok::<
            Seq<GroupView>,
            StopView,
        >(groups_inherited(gs, fa, table)->Ok_0),
    decreases gs, 0int,
{
    if gs.len() > 0 {
        let init = gs.drop_last();
        lemma_groups_again(init, fa, fb, table);
        lemma_group_again(gs.last(), fa, fb, table);
        let once_init = groups_inherited(init, fa, table)->Ok_0;
        let once_last = group_inherited(gs.last(), fa, table)->Ok_0;
        let once = groups_inherited(gs, fa, table)->Ok_0;
        assert(once == once_init.push(once_last));
        assert(once.drop_last() =~= once_init);
        assert(once.last() == once_last);
    }
}

/// Loading twice is loading once: a tree that inheritance has settled in
/// the directory `cwd` comes out as it is when inheritance runs on it again
/// in that directory.
pub proof fn lemma_load_again(g: GroupView, cwd: Seq<char>, table: TableView)
    requires
        table_absolute(table),
        table_fixed(table),
        group_inherited(g, root_frame(cwd), table) is Ok,
    ensures
        group_inherited(
            group_inherited(g, root_frame(cwd), table)->Ok_0,
            root_frame(cwd),
            table,
        ) == Ok::<GroupView, StopView>(group_inherited(g, root_frame(cwd), table)->Ok_0),
{
    lemma_group_again(g, root_frame(cwd), root_frame(cwd), table);
}

/// Every environment of the tree holds no variable twice.
pub open spec fn envs_unique(g: GroupView) -> bool
    decreases g,
{
    &&& env_unique(g.env)
    &&& forall|i: int| 0 <= i < g.commands.len() ==> env_unique((#[trigger] g.commands[i]).env)
    &&& forall|i: int| 0 <= i < g.children.len() ==> envs_unique(#[trigger] g.children[i])
}

/// After inheritance under a frame whose environment holds no variable
/// twice, no environment of the tree holds a variable twice, whatever the
/// environments held before.
pub proof fn lemma_envs_unique(g: GroupView, frame: FrameView, table: TableView)
    requires
        env_unique(frame.env),
        group_inherited(g, frame, table) is Ok,
    ensures
        envs_unique(group_inherited(g, frame, table)->Ok_0),
    decreases g,
{
    let r = group_inherited(g, frame, table)->Ok_0;
    let f0 = common_frame(g.name, g.cwd, g.auto, g.env, frame);
    lemma_canonical_frame(f0, table);
    lemma_env_merged_unique(frame.env, g.env);
    let f = canonical_frame(f0, table)->Ok_0;
    lemma_commands_each(g.commands, f, table);
    lemma_groups_each(g.children, f, table);
    assert forall|i: int| 0 <= i < r.commands.len() implies env_unique(
        (#[trigger] r.commands[i]).env,
    ) by {
        let c = g.commands[i];
        assert(command_inherited(c, f, table) == Ok::<CommandView, StopView>(r.commands[i]));
        lemma_canonical_frame(common_frame(c.name, c.cwd, c.auto, c.env, f), table);
        lemma_env_merged_unique(f.env, c.env);
    }
    assert forall|i: int| 0 <= i < r.children.len() implies envs_unique(
        #[trigger] r.children[i],
    ) by {
        assert(group_inherited(g.children[i], f, table) == Ok::<GroupView, StopView>(
            r.children[i],
        ));
        lemma_envs_unique(g.children[i], f, table);
    }
}

} // verus!
