//! A check of a sound tree leaves nothing out: what is selected, with
//! everything it depends on, can always be put in order.

use vstd::prelude::*;
use crate::check::{expanded, expanded_upto, in_closure, link_graph, row_links};
use crate::commands::command::CommandView;
use crate::commands::group::{flat_children, flat_commands, GroupView};
use crate::graph::{orderable, ranked};
use crate::text::{lemma_position_is, lemma_position_of, listed, position_of};
use crate::validate::{
    children_nodes, command_ids, command_nodes, dep_graph, dep_target, distinct, node_ids,
    repeats_at, tree_nodes,
};

verus! {

/// `part` is `whole` with some items left out: the item at `p` of the part
/// is the item at `at[p]` of the whole, and the order is kept.
pub open spec fn embeds<T>(part: Seq<T>, whole: Seq<T>, at: Seq<int>) -> bool {
    &&& at.len() == part.len()
    &&& forall|p: int| 0 <= p < part.len() ==> 0 <= #[trigger] at[p] < whole.len()
    &&& forall|p: int| 0 <= p < part.len() ==> part[p] == whole[#[trigger] at[p]]
    &&& forall|p: int, q: int| 0 <= p < q < part.len() ==> #[trigger] at[p] < #[trigger] at[q]
}

/// The positions `at`, each moved on by `by`.
pub open spec fn shifted(at: Seq<int>, by: int) -> Seq<int> {
    Seq::new(at.len(), |p: int| at[p] + by)
}

/// Two parts, one after the other, are a part of the two wholes, one after
/// the other.
pub proof fn lemma_embeds_both<T>(
    part1: Seq<T>,
    whole1: Seq<T>,
    at1: Seq<int>,
    part2: Seq<T>,
    whole2: Seq<T>,
    at2: Seq<int>,
)
    requires
        embeds(part1, whole1, at1),
        embeds(part2, whole2, at2),
    ensures
        embeds(part1 + part2, whole1 + whole2, at1 + shifted(at2, whole1.len() as int)),
{
    let part = part1 + part2;
    let whole = whole1 + whole2;
    let at = at1 + shifted(at2, whole1.len() as int);
    assert forall|p: int| 0 <= p < part.len() implies 0 <= #[trigger] at[p] < whole.len()
        && part[p] == whole[at[p]] by {
        if p < part1.len() {
            assert(at[p] == at1[p]);
        } else {
            assert(at[p] == at2[p - part1.len()] + whole1.len());
            assert(part[p] == part2[p - part1.len()]);
        }
    }
    assert forall|p: int, q: int| 0 <= p < q < part.len() implies #[trigger] at[p]
        < #[trigger] at[q] by {
        if q < part1.len() {
            assert(at[p] == at1[p] && at[q] == at1[q]);
        } else if p < part1.len() {
            assert(at[p] == at1[p]);
            assert(at[q] == at2[q - part1.len()] + whole1.len());
        } else {
            assert(at[p] == at2[p - part1.len()] + whole1.len());
            assert(at[q] == at2[q - part1.len()] + whole1.len());
        }
    }
}

/// Where nothing occurs twice in the whole, nothing occurs twice in a part.
pub proof fn lemma_part_distinct(part: Seq<Seq<char>>, whole: Seq<Seq<char>>, at: Seq<int>)
    requires
        embeds(part, whole, at),
        distinct(whole),
    ensures
        distinct(part),
{
    assert forall|j: int| 0 <= j < part.len() implies !#[trigger] repeats_at(part, j) by {
        if repeats_at(part, j) {
            let i = choose|i: int| 0 <= i < j && #[trigger] part[i] == part[j];
            assert(at[i] < at[j]);
            assert(whole[at[i]] == whole[at[j]]);
            assert(repeats_at(whole, at[j]));
        }
    }
}

/// The positions of the commands of a group among the nodes of its tree.
pub open spec fn command_places(g: GroupView) -> Seq<int>
    decreases g, 1int,
{
    Seq::new(g.commands.len(), |p: int| p + 1) + shifted(
        children_places(g.children),
        1 + g.commands.len() as int,
    )
}

/// The positions of the commands of a list of groups among their nodes.
pub open spec fn children_places(gs: Seq<GroupView>) -> Seq<int>
    decreases gs, 0int,
{
    if gs.len() == 0 {
        Seq::empty()
    } else {
        children_places(gs.drop_last()) + shifted(
            command_places(gs.last()),
            children_nodes(gs.drop_last()).len() as int,
        )
    }
}

/// The identifiers of the commands of a tree are a part of the identifiers
/// of its nodes.
pub proof fn lemma_commands_among_nodes(g: GroupView)
    ensures
        embeds(command_ids(flat_commands(g)), node_ids(tree_nodes(g)), command_places(g)),
    decreases g, 1int,
{
    lemma_children_among_nodes(g.children);
    let own = command_ids(g.commands);
    let head = node_ids(
        seq![group_node(g)] + command_nodes(g.commands),
    );
    let own_at = Seq::new(g.commands.len(), |p: int| p + 1);
    assert(embeds(own, head, own_at));
    let below = command_ids(flat_children(g.children));
    let tail = node_ids(children_nodes(g.children));
    lemma_embeds_both(own, head, own_at, below, tail, children_places(g.children));
    assert(command_ids(flat_commands(g)) =~= own + below);
    assert(node_ids(tree_nodes(g)) =~= head + tail);
    assert(head.len() == 1 + g.commands.len());
}

/// The identifiers of the commands of a list of groups are a part of the
/// identifiers of their nodes.
pub proof fn lemma_children_among_nodes(gs: Seq<GroupView>)
    ensures
        embeds(command_ids(flat_children(gs)), node_ids(children_nodes(gs)), children_places(gs)),
    decreases gs, 0int,
{
    if gs.len() > 0 {
        lemma_children_among_nodes(gs.drop_last());
        lemma_commands_among_nodes(gs.last());
        let part1 = command_ids(flat_children(gs.drop_last()));
        let whole1 = node_ids(children_nodes(gs.drop_last()));
        let part2 = command_ids(flat_commands(gs.last()));
        let whole2 = node_ids(tree_nodes(gs.last()));
        lemma_embeds_both(
            part1,
            whole1,
            children_places(gs.drop_last()),
            part2,
            whole2,
            command_places(gs.last()),
        );
        assert(command_ids(flat_children(gs)) =~= part1 + part2);
        assert(node_ids(children_nodes(gs)) =~= whole1 + whole2);
    }
}

/// The node of a group itself.
pub open spec fn group_node(g: GroupView) -> crate::validate::NodeView {
    crate::validate::NodeView { is_group: true, id: g.id, name: g.name, cmd: Seq::empty() }
}

/// In a tree whose nodes have unique identifiers, the commands have unique
/// identifiers.
pub proof fn lemma_commands_distinct(g: GroupView)
    requires
        distinct(node_ids(tree_nodes(g))),
    ensures
        distinct(command_ids(flat_commands(g))),
{
    lemma_commands_among_nodes(g);
    lemma_part_distinct(
        command_ids(flat_commands(g)),
        node_ids(tree_nodes(g)),
        command_places(g),
    );
}

/// The positions in `all` of the commands of the closure among the first
/// `upto`.
pub open spec fn closure_places(selected: Seq<CommandView>, all: Seq<CommandView>, upto: int) -> Seq<
    int,
>
    decreases upto,
{
    if upto <= 0 {
        Seq::empty()
    } else if in_closure(selected, all, upto - 1) {
        closure_places(selected, all, upto - 1).push(upto - 1)
    } else {
        closure_places(selected, all, upto - 1)
    }
}

/// The selection with what it depends on is a part of all commands.
pub proof fn lemma_expanded_embeds(selected: Seq<CommandView>, all: Seq<CommandView>, upto: int)
    requires
        0 <= upto <= all.len(),
    ensures
        embeds(expanded_upto(selected, all, upto), all, closure_places(selected, all, upto)),
        forall|p: int|
            0 <= p < closure_places(selected, all, upto).len() ==> #[trigger] closure_places(
                selected,
                all,
                upto,
            )[p] < upto,
    decreases upto,
{
    if upto > 0 {
        lemma_expanded_embeds(selected, all, upto - 1);
        let before = closure_places(selected, all, upto - 1);
        let at = closure_places(selected, all, upto);
        let part = expanded_upto(selected, all, upto);
        if in_closure(selected, all, upto - 1) {
            assert forall|p: int, q: int| 0 <= p < q < part.len() implies #[trigger] at[p]
                < #[trigger] at[q] by {
                assert(at[p] == before[p]);
                if q < before.len() {
                    assert(at[q] == before[q]);
                }
            }
            assert forall|p: int| 0 <= p < part.len() implies 0 <= #[trigger] at[p] < all.len()
                && part[p] == all[at[p]] && at[p] < upto by {
                if p < before.len() {
                    assert(at[p] == before[p]);
                }
            }
        }
    }
}

/// Each link of a row stands for a dependency that names a command.
pub proof fn lemma_link_names(ids: Seq<Seq<char>>, deps: Seq<Seq<char>>, t: int)
    requires
        0 <= t < row_links(ids, deps).len(),
    ensures
        exists|k: int|
            0 <= k < deps.len() && listed(ids, #[trigger] deps[k]) && row_links(ids, deps)[t]
                == position_of(ids, deps[k]),
    decreases deps.len(),
{
    if deps.len() > 0 {
        let rest = row_links(ids, deps.drop_last());
        if t < rest.len() {
            lemma_link_names(ids, deps.drop_last(), t);
            let k = choose|k: int|
                0 <= k < deps.drop_last().len() && listed(ids, #[trigger] deps.drop_last()[k])
                    && rest[t] == position_of(ids, deps.drop_last()[k]);
            assert(deps[k] == deps.drop_last()[k]);
        } else {
            assert(listed(ids, deps[deps.len() - 1]));
        }
    }
}

/// The ranks of a part: each command has the rank that it has in the whole.
pub open spec fn part_ranks(rank: Seq<int>, at: Seq<int>) -> Seq<int> {
    Seq::new(at.len(), |p: int| rank[at[p]])
}

/// A ranking of the dependencies of all commands ranks the dependencies
/// among a part of them.
pub proof fn lemma_part_ranked(
    part: Seq<CommandView>,
    all: Seq<CommandView>,
    at: Seq<int>,
    rank: Seq<int>,
)
    requires
        embeds(part, all, at),
        distinct(command_ids(all)),
        ranked(dep_graph(all), rank),
    ensures
        ranked(link_graph(part), part_ranks(rank, at)),
{
    let g = link_graph(part);
    let ranks = part_ranks(rank, at);
    let ids = command_ids(part);
    let all_ids = command_ids(all);
    assert forall|a: int, t: int| 0 <= a < g.len() && 0 <= t < g[a].len() implies ranks[
    #[trigger] g[a][t]] < ranks[a] by {
        let deps = part[a].depends_on;
        lemma_link_names(ids, deps, t);
        let k = choose|k: int|
            0 <= k < deps.len() && listed(ids, #[trigger] deps[k]) && row_links(ids, deps)[t]
                == position_of(ids, deps[k]);
        let q = g[a][t];
        lemma_position_of(ids, deps[k]);
        assert(ids[q] == deps[k]);
        assert(part[q] == all[at[q]]);
        assert(all_ids[at[q]] == deps[k]);
        assert forall|i: int| 0 <= i < at[q] implies #[trigger] all_ids[i] != deps[k] by {
            if all_ids[i] == deps[k] {
                assert(repeats_at(all_ids, at[q]));
            }
        }
        lemma_position_is(all_ids, deps[k], at[q]);
        assert(part[a] == all[at[a]]);
        assert(dep_target(all, at[a], k) == at[q]);
        assert(dep_graph(all)[at[a]][k] == at[q]);
    }
    assert forall|a: int| 0 <= a < g.len() implies 0 <= #[trigger] ranks[a] by {
        assert(0 <= at[a] < all.len());
    }
}

/// Where commands have unique identifiers and their dependencies can be put
/// in order, the dependencies among the selection and what it depends on
/// can be put in order.
pub proof fn lemma_expanded_orderable(selected: Seq<CommandView>, all: Seq<CommandView>)
    requires
        distinct(command_ids(all)),
        orderable(dep_graph(all)),
    ensures
        orderable(link_graph(expanded(selected, all))),
{
    let rank = choose|rank: Seq<int>| ranked(dep_graph(all), rank);
    lemma_expanded_embeds(selected, all, all.len() as int);
    let at = closure_places(selected, all, all.len() as int);
    lemma_part_ranked(expanded(selected, all), all, at, rank);
}

/// Where commands have unique identifiers, so have the selection and what
/// it depends on.
pub proof fn lemma_expanded_distinct(selected: Seq<CommandView>, all: Seq<CommandView>)
    requires
        distinct(command_ids(all)),
    ensures
        distinct(command_ids(expanded(selected, all))),
{
    lemma_expanded_embeds(selected, all, all.len() as int);
    let at = closure_places(selected, all, all.len() as int);
    let part = expanded(selected, all);
    assert(embeds(command_ids(part), command_ids(all), at)) by {
        assert forall|p: int| 0 <= p < part.len() implies command_ids(part)[p] == command_ids(
            all,
        )[#[trigger] at[p]] by {
            assert(part[p] == all[at[p]]);
        }
    }
    lemma_part_distinct(command_ids(part), command_ids(all), at);
}

} // verus!
