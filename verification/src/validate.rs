//! Validation of a command tree before inheritance.

use vstd::prelude::*;
use crate::commands::auto::strs;
use crate::commands::command::{refs_view, Command, CommandView};
use crate::commands::group::{flat_commands, lemma_group_view, CommandGroup, GroupView};
use crate::config_file::{ConfigError, ConfigErrorView};
use crate::graph::{acyclic, closed, find_cycle, graph_of, is_cycle, orderable};
use crate::text::{blank, concat3, concat5, find_text, is_blank, lemma_position_of, position_of};

verus! {

/// Mathematical model of [`NodeInfo`].
pub struct NodeView {
    pub is_group: bool,
    pub id: Seq<char>,
    pub name: Seq<char>,
    pub cmd: Seq<char>,
}

/// What validation reads of one node of the tree.
#[derive(Debug)]
pub struct NodeInfo {
    pub is_group: bool,
    pub id: String,
    pub name: String,
    pub cmd: String,
}

impl View for NodeInfo {
    type V = NodeView;

    open spec fn view(&self) -> NodeView {
        NodeView { is_group: self.is_group, id: self.id@, name: self.name@, cmd: self.cmd@ }
    }
}

/// The models of a list of nodes.
pub open spec fn nodes_view(v: Seq<NodeInfo>) -> Seq<NodeView> {
    Seq::new(v.len(), |i: int| v[i]@)
}

/// The nodes of a list of commands.
pub open spec fn command_nodes(cs: Seq<CommandView>) -> Seq<NodeView> {
    Seq::new(
        cs.len(),
        |i: int| NodeView { is_group: false, id: cs[i].id, name: cs[i].name, cmd: cs[i].cmd },
    )
}

/// The nodes of a tree in walking order: the group, its commands, then each
/// child group's nodes in turn.
pub open spec fn tree_nodes(g: GroupView) -> Seq<NodeView>
    decreases g, 1int,
{
    seq![NodeView { is_group: true, id: g.id, name: g.name, cmd: Seq::empty() }] + command_nodes(
        g.commands,
    ) + children_nodes(g.children)
}

/// The nodes of a list of groups, group after group.
pub open spec fn children_nodes(gs: Seq<GroupView>) -> Seq<NodeView>
    decreases gs, 0int,
{
    if gs.len() == 0 {
        Seq::empty()
    } else {
        children_nodes(gs.drop_last()) + tree_nodes(gs.last())
    }
}

/// The identifiers of a list of nodes.
pub open spec fn node_ids(nodes: Seq<NodeView>) -> Seq<Seq<char>> {
    Seq::new(nodes.len(), |i: int| nodes[i].id)
}

/// The identifier at `j` has occurred before.
pub open spec fn repeats_at(ids: Seq<Seq<char>>, j: int) -> bool {
    exists|i: int| 0 <= i < j && #[trigger] ids[i] == ids[j]
}

/// No identifier occurs twice.
pub open spec fn distinct(ids: Seq<Seq<char>>) -> bool {
    forall|j: int| 0 <= j < ids.len() ==> !#[trigger] repeats_at(ids, j)
}

/// The node at `j` has a blank name.
pub open spec fn nameless_at(nodes: Seq<NodeView>, j: int) -> bool {
    blank(nodes[j].name)
}

/// The node at `j` is a command with a blank shell string.
pub open spec fn idle_at(nodes: Seq<NodeView>, j: int) -> bool {
    !nodes[j].is_group && blank(nodes[j].cmd)
}

/// Every node has a name.
pub open spec fn all_named(nodes: Seq<NodeView>) -> bool {
    forall|j: int| 0 <= j < nodes.len() ==> !#[trigger] nameless_at(nodes, j)
}

/// Every command has a shell string.
pub open spec fn all_runnable(nodes: Seq<NodeView>) -> bool {
    forall|j: int| 0 <= j < nodes.len() ==> !#[trigger] idle_at(nodes, j)
}

/// The message for a node without a name.
pub open spec fn nameless_message(node: NodeView) -> Seq<char> {
    if node.is_group {
        "Group with id '"@ + node.id + "' has an empty name"@
    } else {
        "Command with id '"@ + node.id + "' has an empty name"@
    }
}

/// The message for a command without a shell string.
pub open spec fn idle_message(node: NodeView) -> Seq<char> {
    "Command '"@ + node.name + "' has an empty cmd string"@
}

/// `e` is the first fault of the walk: the first repeated identifier where
/// there is one, else the first blank name, else the first blank shell string.
pub open spec fn tree_fault(nodes: Seq<NodeView>, e: ConfigErrorView) -> bool {
    if !distinct(node_ids(nodes)) {
        exists|j: int|
            {
                &&& 0 <= j < nodes.len()
                &&& #[trigger] repeats_at(node_ids(nodes), j)
                &&& forall|i: int| 0 <= i < j ==> !#[trigger] repeats_at(node_ids(nodes), i)
                &&& e == ConfigErrorView::DuplicateId(nodes[j].id)
            }
    } else if !all_named(nodes) {
        exists|j: int|
            {
                &&& 0 <= j < nodes.len()
                &&& #[trigger] nameless_at(nodes, j)
                &&& forall|i: int| 0 <= i < j ==> !#[trigger] nameless_at(nodes, i)
                &&& e == ConfigErrorView::Validation(nameless_message(nodes[j]))
            }
    } else {
        exists|j: int|
            {
                &&& 0 <= j < nodes.len()
                &&& #[trigger] idle_at(nodes, j)
                &&& forall|i: int| 0 <= i < j ==> !#[trigger] idle_at(nodes, i)
                &&& e == ConfigErrorView::Validation(idle_message(nodes[j]))
            }
    }
}

/// A tree is sound when identifiers are unique, every node has a name and
/// every command a shell string.
pub open spec fn tree_sound(g: GroupView) -> bool {
    &&& distinct(node_ids(tree_nodes(g)))
    &&& all_named(tree_nodes(g))
    &&& all_runnable(tree_nodes(g))
}

fn push_nodes(out: &mut Vec<NodeInfo>, group: &CommandGroup)
    ensures
        nodes_view(final(out)@) == nodes_view(old(out)@) + tree_nodes(group@),
    decreases group,
{
    proof {
        lemma_group_view(*group);
    }
    let ghost start = nodes_view(out@);
    let ghost head = seq![
        NodeView { is_group: true, id: group@.id, name: group@.name, cmd: Seq::empty() },
    ];
    out.push(
        NodeInfo {
            is_group: true,
            id: group.id.clone(),
            name: group.name.clone(),
            cmd: String::new(),
        },
    );
    assert(nodes_view(out@) =~= start + head);
    let mut i: usize = 0;
    while i < group.commands.len()
        invariant
            i <= group.commands.len(),
            group@.commands == crate::commands::command::commands_view(group.commands@),
            nodes_view(out@) == start + head + command_nodes(group@.commands).take(i as int),
        decreases group.commands.len() - i,
    {
        let c = &group.commands[i];
        let ghost before = out@;
        out.push(
            NodeInfo {
                is_group: false,
                id: c.id.clone(),
                name: c.name.clone(),
                cmd: c.cmd.clone(),
            },
        );
        proof {
            let all = command_nodes(group@.commands);
            assert(all[i as int] == out@[out@.len() - 1]@);
            assert(nodes_view(out@) =~= nodes_view(before).push(all[i as int]));
            assert(all.take(i + 1) =~= all.take(i as int).push(all[i as int]));
            assert(nodes_view(out@) =~= start + head + all.take(i + 1));
        }
        i += 1;
    }
    assert(command_nodes(group@.commands).take(i as int) =~= command_nodes(group@.commands));
    let ghost mid = nodes_view(out@);
    let mut k: usize = 0;
    assert(group@.children.take(0) =~= Seq::<GroupView>::empty());
    assert(mid =~= mid + children_nodes(group@.children.take(0)));
    while k < group.children.len()
        invariant
            k <= group.children.len(),
            group@.children == crate::commands::group::groups_view(group.children@),
            nodes_view(out@) == mid + children_nodes(group@.children.take(k as int)),
        decreases group.children.len() - k,
    {
        proof {
            let next = group@.children.take(k + 1);
            assert(next.drop_last() =~= group@.children.take(k as int));
            assert(next.last() == group.children@[k as int]@);
        }
        push_nodes(out, &group.children[k]);
        assert(nodes_view(out@) =~= mid + children_nodes(group@.children.take(k + 1)));
        k += 1;
    }
    assert(group@.children.take(k as int) =~= group@.children);
    assert(nodes_view(out@) =~= start + tree_nodes(group@));
}

/// The nodes of a tree in walking order.
pub fn walk_tree(root: &CommandGroup) -> (r: Vec<NodeInfo>)
    ensures
        nodes_view(r@) == tree_nodes(root@),
{
    let mut out: Vec<NodeInfo> = Vec::new();
    push_nodes(&mut out, root);
    assert(nodes_view(out@) =~= tree_nodes(root@));
    out
}

fn seen_before(nodes: &Vec<NodeInfo>, j: usize) -> (r: bool)
    requires
        j < nodes.len(),
    ensures
        r == repeats_at(node_ids(nodes_view(nodes@)), j as int),
{
    let ghost ids = node_ids(nodes_view(nodes@));
    let mut i: usize = 0;
    while i < j
        invariant
            i <= j,
            j < nodes.len(),
            ids == node_ids(nodes_view(nodes@)),
            forall|t: int| 0 <= t < i ==> #[trigger] ids[t] != ids[j as int],
        decreases j - i,
    {
        if nodes[i].id.eq(&nodes[j].id) {
            assert(ids[i as int] == ids[j as int]);
            return true;
        }
        i += 1;
    }
    false
}

/// Fails on the first identifier that the walk has met before.
pub fn check_duplicates(nodes: &Vec<NodeInfo>) -> (r: Result<(), ConfigError>)
    ensures
        r is Ok <==> distinct(node_ids(nodes_view(nodes@))),
        r matches Err(e) ==> exists|j: int|
            {
                &&& 0 <= j < nodes.len()
                &&& #[trigger] repeats_at(node_ids(nodes_view(nodes@)), j)
                &&& forall|i: int|
                    0 <= i < j ==> !#[trigger] repeats_at(node_ids(nodes_view(nodes@)), i)
                &&& e@ == ConfigErrorView::DuplicateId(nodes@[j]@.id)
            },
{
    let ghost ids = node_ids(nodes_view(nodes@));
    let mut j: usize = 0;
    while j < nodes.len()
        invariant
            j <= nodes.len(),
            ids == node_ids(nodes_view(nodes@)),
            forall|i: int| 0 <= i < j ==> !#[trigger] repeats_at(ids, i),
        decreases nodes.len() - j,
    {
        if seen_before(nodes, j) {
            let e = ConfigError::DuplicateId(nodes[j].id.clone());
            assert(repeats_at(ids, j as int));
            return Err(e);
        }
        j += 1;
    }
    Ok(())
}

/// Fails on the first node whose name is blank.
pub fn check_empty_names(nodes: &Vec<NodeInfo>) -> (r: Result<(), ConfigError>)
    ensures
        r is Ok <==> all_named(nodes_view(nodes@)),
        r matches Err(e) ==> exists|j: int|
            {
                &&& 0 <= j < nodes.len()
                &&& #[trigger] nameless_at(nodes_view(nodes@), j)
                &&& forall|i: int| 0 <= i < j ==> !#[trigger] nameless_at(nodes_view(nodes@), i)
                &&& e@ == ConfigErrorView::Validation(nameless_message(nodes@[j]@))
            },
{
    let ghost all = nodes_view(nodes@);
    let mut j: usize = 0;
    while j < nodes.len()
        invariant
            j <= nodes.len(),
            all == nodes_view(nodes@),
            forall|i: int| 0 <= i < j ==> !#[trigger] nameless_at(all, i),
        decreases nodes.len() - j,
    {
        if is_blank(nodes[j].name.as_str()) {
            let message = if nodes[j].is_group {
                concat3("Group with id '", nodes[j].id.as_str(), "' has an empty name")
            } else {
                concat3("Command with id '", nodes[j].id.as_str(), "' has an empty name")
            };
            assert(nameless_at(all, j as int));
            return Err(ConfigError::Validation(message));
        }
        j += 1;
    }
    Ok(())
}

/// Fails on the first command whose shell string is blank.
pub fn check_empty_commands(nodes: &Vec<NodeInfo>) -> (r: Result<(), ConfigError>)
    ensures
        r is Ok <==> all_runnable(nodes_view(nodes@)),
        r matches Err(e) ==> exists|j: int|
            {
                &&& 0 <= j < nodes.len()
                &&& #[trigger] idle_at(nodes_view(nodes@), j)
                &&& forall|i: int| 0 <= i < j ==> !#[trigger] idle_at(nodes_view(nodes@), i)
                &&& e@ == ConfigErrorView::Validation(idle_message(nodes@[j]@))
            },
{
    let ghost all = nodes_view(nodes@);
    let mut j: usize = 0;
    while j < nodes.len()
        invariant
            j <= nodes.len(),
            all == nodes_view(nodes@),
            forall|i: int| 0 <= i < j ==> !#[trigger] idle_at(all, i),
        decreases nodes.len() - j,
    {
        if !nodes[j].is_group && is_blank(nodes[j].cmd.as_str()) {
            let message = concat3("Command '", nodes[j].name.as_str(), "' has an empty cmd string");
            assert(idle_at(all, j as int));
            return Err(ConfigError::Validation(message));
        }
        j += 1;
    }
    Ok(())
}

/// Validates the tree: unique identifiers, then names, then shell strings.
///
/// Succeeds exactly on a sound tree, and otherwise reports the first fault
/// in walking order.
pub fn validate_tree(root: &CommandGroup) -> (r: Result<(), ConfigError>)
    ensures
        r is Ok <==> tree_sound(root@),
        r matches Err(e) ==> tree_fault(tree_nodes(root@), e@),
{
    let nodes = walk_tree(root);
    match check_duplicates(&nodes) {
        Err(e) => {
            return Err(e);
        },
        Ok(_) => {},
    }
    match check_empty_names(&nodes) {
        Err(e) => {
            return Err(e);
        },
        Ok(_) => {},
    }
    check_empty_commands(&nodes)
}

/// The names of the groups that hold neither commands nor child groups, in
/// walking order. Such groups are worth a warning, not an error.
pub open spec fn empty_groups(g: GroupView) -> Seq<Seq<char>>
    decreases g, 1int,
{
    (if g.commands.len() == 0 && g.children.len() == 0 {
        seq![g.name]
    } else {
        Seq::empty()
    }) + empty_among(g.children)
}

/// The empty groups of a list of groups, group after group.
pub open spec fn empty_among(gs: Seq<GroupView>) -> Seq<Seq<char>>
    decreases gs, 0int,
{
    if gs.len() == 0 {
        Seq::empty()
    } else {
        empty_among(gs.drop_last()) + empty_groups(gs.last())
    }
}

fn push_empty_groups(out: &mut Vec<String>, group: &CommandGroup)
    ensures
        strs(final(out)@) == strs(old(out)@) + empty_groups(group@),
    decreases group,
{
    proof {
        lemma_group_view(*group);
    }
    let ghost start = strs(out@);
    if group.commands.len() == 0 && group.children.len() == 0 {
        out.push(group.name.clone());
        assert(strs(out@) =~= start + seq![group@.name]);
    } else {
        assert(strs(out@) =~= start + Seq::<Seq<char>>::empty());
    }
    let ghost mid = strs(out@);
    let mut k: usize = 0;
    assert(group@.children.take(0) =~= Seq::<GroupView>::empty());
    assert(mid =~= mid + empty_among(group@.children.take(0)));
    while k < group.children.len()
        invariant
            k <= group.children.len(),
            group@.children == crate::commands::group::groups_view(group.children@),
            strs(out@) == mid + empty_among(group@.children.take(k as int)),
        decreases group.children.len() - k,
    {
        proof {
            let next = group@.children.take(k + 1);
            assert(next.drop_last() =~= group@.children.take(k as int));
            assert(next.last() == group.children@[k as int]@);
        }
        push_empty_groups(out, &group.children[k]);
        assert(strs(out@) =~= mid + empty_among(group@.children.take(k + 1)));
        k += 1;
    }
    assert(group@.children.take(k as int) =~= group@.children);
    assert(strs(out@) =~= start + empty_groups(group@));
}

/// The names of the groups that hold nothing.
pub fn check_empty_groups(root: &CommandGroup) -> (r: Vec<String>)
    ensures
        strs(r@) == empty_groups(root@),
{
    let mut out: Vec<String> = Vec::new();
    push_empty_groups(&mut out, root);
    assert(strs(out@) =~= empty_groups(root@));
    out
}

/// The warning owed when a configuration was written for another version.
pub open spec fn version_warning(config: Seq<char>, binary: Seq<char>) -> Option<Seq<char>> {
    if config == binary {
        None
    } else {
        Some(
            "Config fnug_version '"@ + config + "' differs from binary version '"@ + binary
                + "'"@,
        )
    }
}

/// Compares the configuration's format version with the program's; a
/// difference is worth a warning, not an error.
pub fn validate_version(config_version: &str, binary_version: &str) -> (r: Option<String>)
    ensures
        match r {
            Some(m) => version_warning(config_version@, binary_version@) == Some(m@),
            None => version_warning(config_version@, binary_version@) is None,
        },
{
    let a = String::from_str(config_version);
    let b = String::from_str(binary_version);
    if a.eq(&b) {
        None
    } else {
        Some(
            concat5(
                "Config fnug_version '",
                config_version,
                "' differs from binary version '",
                binary_version,
                "'",
            ),
        )
    }
}

/// The identifiers of a list of commands.
pub open spec fn command_ids(cmds: Seq<CommandView>) -> Seq<Seq<char>> {
    Seq::new(cmds.len(), |i: int| cmds[i].id)
}

/// The position of the command that dependency `k` of command `i` names: the
/// first command with that identifier, or the list's length where none has it.
pub open spec fn dep_target(cmds: Seq<CommandView>, i: int, k: int) -> int {
    position_of(command_ids(cmds), cmds[i].depends_on[k])
}

/// The dependency graph over positions in the flattened command list.
pub open spec fn dep_graph(cmds: Seq<CommandView>) -> Seq<Seq<int>> {
    Seq::new(
        cmds.len(),
        |i: int| Seq::new(cmds[i].depends_on.len(), |k: int| dep_target(cmds, i, k)),
    )
}

/// Dependency `k` of command `i` names no command.
pub open spec fn unresolved_at(cmds: Seq<CommandView>, i: int, k: int) -> bool {
    dep_target(cmds, i, k) >= cmds.len()
}

/// Every dependency names a command.
pub open spec fn deps_resolve(cmds: Seq<CommandView>) -> bool {
    forall|i: int, k: int|
        0 <= i < cmds.len() && 0 <= k < cmds[i].depends_on.len() ==> !#[trigger] unresolved_at(
            cmds,
            i,
            k,
        )
}

/// The message for a dependency that names no command.
pub open spec fn missing_message(name: Seq<char>, dep: Seq<char>) -> Seq<char> {
    "Command '"@ + name + "' depends on '"@ + dep + "' which does not exist"@
}

/// The message for a circular dependency through the command `id`.
pub open spec fn cycle_message(id: Seq<char>) -> Seq<char> {
    "Circular dependency detected involving '"@ + id + "'"@
}

/// `e` reports the first dependency, command by command, that names no command.
pub open spec fn first_unresolved(cmds: Seq<CommandView>, e: ConfigErrorView) -> bool {
    exists|i: int, k: int|
        {
            &&& 0 <= i < cmds.len()
            &&& 0 <= k < cmds[i].depends_on.len()
            &&& #[trigger] unresolved_at(cmds, i, k)
            &&& forall|a: int, b: int|
                0 <= a < cmds.len() && 0 <= b < cmds[a].depends_on.len() && (a < i || (a == i && b
                    < k)) ==> !#[trigger] unresolved_at(cmds, a, b)
            &&& e == ConfigErrorView::Validation(
                missing_message(cmds[i].name, cmds[i].depends_on[k]),
            )
        }
}

/// `e` reports a fault of the dependencies: the first one that names no
/// command, or, where all resolve, a command that lies on a cycle.
pub open spec fn dependency_fault(cmds: Seq<CommandView>, e: ConfigErrorView) -> bool {
    if !deps_resolve(cmds) {
        first_unresolved(cmds, e)
    } else {
        exists|path: Seq<int>|
            {
                &&& #[trigger] is_cycle(dep_graph(cmds), path)
                &&& 0 <= path[0] < cmds.len()
                &&& e == ConfigErrorView::Validation(cycle_message(cmds[path[0]].id))
            }
    }
}

/// The dependencies of a list of commands are sound when each names a
/// command and none leads back to where it started.
pub open spec fn deps_sound(cmds: Seq<CommandView>) -> bool {
    deps_resolve(cmds) && acyclic(dep_graph(cmds))
}

/// The identifiers of a list of commands.
pub fn ids_of(commands: &Vec<&Command>) -> (r: Vec<String>)
    ensures
        strs(r@) == command_ids(refs_view(commands@)),
{
    let mut out: Vec<String> = Vec::new();
    let mut i: usize = 0;
    while i < commands.len()
        invariant
            i <= commands.len(),
            out@.len() == i,
            forall|j: int| 0 <= j < i ==> out@[j]@ == commands@[j]@.id,
        decreases commands.len() - i,
    {
        out.push(commands[i].id.clone());
        i += 1;
    }
    assert(strs(out@) =~= command_ids(refs_view(commands@)));
    out
}

/// The dependency graph of a list of commands, by position.
///
/// Fails on the first dependency that names no command.
pub fn dependency_graph(commands: &Vec<&Command>) -> (r: Result<Vec<Vec<usize>>, ConfigError>)
    ensures
        r is Ok <==> deps_resolve(refs_view(commands@)),
        match r {
            Ok(adj) => graph_of(adj@) == dep_graph(refs_view(commands@)) && closed(
                graph_of(adj@),
            ),
            Err(e) => first_unresolved(refs_view(commands@), e@),
        },
{
    let ghost cmds = refs_view(commands@);
    let ids = ids_of(commands);
    let mut adj: Vec<Vec<usize>> = Vec::new();
    let mut i: usize = 0;
    while i < commands.len()
        invariant
            i <= commands.len(),
            cmds == refs_view(commands@),
            strs(ids@) == command_ids(cmds),
            adj@.len() == i,
            forall|a: int, b: int|
                0 <= a < i && 0 <= b < cmds[a].depends_on.len() ==> !#[trigger] unresolved_at(
                    cmds,
                    a,
                    b,
                ),
            forall|a: int| 0 <= a < i ==> (#[trigger] adj@[a])@.len() == cmds[a].depends_on.len(),
            forall|a: int, b: int|
                0 <= a < i && 0 <= b < cmds[a].depends_on.len() ==> (#[trigger] adj@[a]@[b])
                    == dep_target(cmds, a, b),
        decreases commands.len() - i,
    {
        let deps = &commands[i].depends_on;
        let mut row: Vec<usize> = Vec::new();
        let mut k: usize = 0;
        assert(strs(deps@) == cmds[i as int].depends_on);
        while k < deps.len()
            invariant
                k <= deps.len(),
                i < commands.len(),
                cmds == refs_view(commands@),
                strs(ids@) == command_ids(cmds),
                strs(deps@) == cmds[i as int].depends_on,
                row@.len() == k,
                forall|a: int, b: int|
                    0 <= a < i && 0 <= b < cmds[a].depends_on.len() ==> !#[trigger] unresolved_at(
                        cmds,
                        a,
                        b,
                    ),
                forall|b: int| 0 <= b < k ==> !#[trigger] unresolved_at(cmds, i as int, b),
                forall|b: int| 0 <= b < k ==> (#[trigger] row@[b]) == dep_target(cmds, i as int, b),
            decreases deps.len() - k,
        {
            let at = find_text(&ids, &deps[k]);
            assert(strs(deps@)[k as int] == deps@[k as int]@);
            assert(at == dep_target(cmds, i as int, k as int));
            if at >= commands.len() {
                let message = concat5(
                    "Command '",
                    commands[i].name.as_str(),
                    "' depends on '",
                    deps[k].as_str(),
                    "' which does not exist",
                );
                let e = ConfigError::Validation(message);
                proof {
                    assert(unresolved_at(cmds, i as int, k as int));
                    assert(message@ == missing_message(
                        cmds[i as int].name,
                        cmds[i as int].depends_on[k as int],
                    ));
                    assert(first_unresolved(cmds, e@));
                }
                return Err(e);
            }
            row.push(at);
            k += 1;
        }
        adj.push(row);
        i += 1;
    }
    proof {
        assert(graph_of(adj@) =~= dep_graph(cmds)) by {
            assert forall|a: int| 0 <= a < cmds.len() implies graph_of(adj@)[a] =~= dep_graph(
                cmds,
            )[a] by {
                assert(adj@[a]@.len() == cmds[a].depends_on.len());
                assert forall|b: int| 0 <= b < cmds[a].depends_on.len() implies graph_of(
                    adj@,
                )[a][b] == dep_graph(cmds)[a][b] by {
                    assert(adj@[a]@[b] == dep_target(cmds, a, b));
                }
            }
        }
        assert forall|a: int, b: int|
            0 <= a < cmds.len() && 0 <= b < dep_graph(cmds)[a].len() implies 0
            <= #[trigger] dep_graph(cmds)[a][b] < cmds.len() by {
            assert(!unresolved_at(cmds, a, b));
            lemma_position_of(command_ids(cmds), cmds[a].depends_on[b]);
        }
    }
    Ok(adj)
}

proof fn lemma_cycle_fault(cmds: Seq<CommandView>, path: Seq<int>, e: ConfigErrorView)
    requires
        deps_resolve(cmds),
        is_cycle(dep_graph(cmds), path),
        0 <= path[0] < cmds.len(),
        e == ConfigErrorView::Validation(cycle_message(cmds[path[0]].id)),
    ensures
        dependency_fault(cmds, e),
        !deps_sound(cmds),
{
}

/// Validates the dependencies of a list of commands. Dependencies that pass
/// can be put in order.
pub fn check_dependencies(commands: &Vec<&Command>) -> (r: Result<(), ConfigError>)
    ensures
        r is Ok <==> deps_sound(refs_view(commands@)),
        r is Ok ==> orderable(dep_graph(refs_view(commands@))),
        r matches Err(e) ==> dependency_fault(refs_view(commands@), e@),
{
    let ghost cmds = refs_view(commands@);
    let adj = match dependency_graph(commands) {
        Err(e) => {
            assert(!deps_sound(cmds));
            assert(dependency_fault(cmds, e@));
            return Err(e);
        },
        Ok(adj) => adj,
    };
    assert(adj@.len() == commands@.len()) by {
        assert(graph_of(adj@).len() == dep_graph(cmds).len());
    }
    match find_cycle(&adj) {
        None => {
            assert(deps_sound(cmds));
            Ok(())
        },
        Some(v) => {
            let message = concat3(
                "Circular dependency detected involving '",
                commands[v].id.as_str(),
                "'",
            );
            let e = ConfigError::Validation(message);
            proof {
                let path = choose|path: Seq<int>|
                    is_cycle(graph_of(adj@), path) && path[0] == v as int;
                assert(cmds[v as int].id == commands@[v as int]@.id);
                lemma_cycle_fault(cmds, path, e@);
                assert(!deps_sound(cmds));
                assert(dependency_fault(cmds, e@));
            }
            Err(e)
        },
    }
}

/// Validates that every dependency names a command and that the dependency
/// graph has no cycle. Dependencies that pass can be put in order.
pub fn validate_dependencies(root: &CommandGroup) -> (r: Result<(), ConfigError>)
    ensures
        r is Ok <==> deps_sound(flat_commands(root@)),
        r is Ok ==> orderable(dep_graph(flat_commands(root@))),
        r matches Err(e) ==> dependency_fault(flat_commands(root@), e@),
{
    let commands = root.all_commands();
    check_dependencies(&commands)
}

} // verus!
