//! Command runner core: configuration trees, selection, dependency ordering,
//! scheduling decisions and terminal protocol encoding.

use vstd::prelude::*;

pub mod check;
pub mod cli;
pub mod commands;
pub mod complete;
pub mod config_file;
pub mod graph;
pub mod init_hooks;
pub mod mcp;
pub mod path;
pub mod pattern;
pub mod pty;
pub mod scheduler;
pub mod selectors;
pub mod text;
pub mod theme;
pub mod tui;
pub mod validate;

use crate::commands::group::{flat_commands, CommandGroup, GroupView};
use crate::commands::inherit::{
    group_inherited, root_frame, InheritError, Inheritance, PathTable, StopView,
};
use crate::commands::laws::{
    all_settled, lemma_tree_keeps_nodes, lemma_tree_keeps_wiring, lemma_tree_settled,
    lemma_wiring_graph, tree_settled,
};
use crate::config_file::{
    first_bad_pattern, group_converts, group_patterns, patterns_outcome, Config,
};
use crate::commands::again::{envs_unique, lemma_envs_unique, lemma_load_again};
use crate::complete::lemma_commands_distinct;
use crate::graph::orderable;
use crate::validate::{
    command_ids, dep_graph, dependency_fault, deps_sound, distinct, node_ids, tree_fault,
    tree_nodes, tree_sound, validate_dependencies, validate_tree,
};

verus! {

/// The version of the configuration format that this library reads.
pub const VERSION: &'static str = "0.0.27";

/// What settling `tree` in the directory `cwd` gives: the settled tree, or
/// the first reason to stop. Validation comes first, then the dependencies,
/// then inheritance.
pub open spec fn settles_to(
    tree: GroupView,
    cwd: Seq<char>,
    table: commands::inherit::TableView,
    r: Result<GroupView, StopView>,
) -> bool {
    if !tree_sound(tree) {
        r matches Err(StopView::Failed(e)) && tree_fault(tree_nodes(tree), e)
    } else if !deps_sound(flat_commands(tree)) {
        r matches Err(StopView::Failed(e)) && dependency_fault(flat_commands(tree), e)
    } else {
        r == group_inherited(tree, root_frame(cwd), table)
    }
}

/// What holds of a settled tree: identifiers are unique, among the nodes and
/// so among the commands, every dependency names a command, the
/// dependencies have no cycle, so that they can be put in order, and no
/// environment holds a variable twice.
pub open spec fn settled_sound(t: GroupView) -> bool {
    &&& envs_unique(t)
    &&& distinct(node_ids(tree_nodes(t)))
    &&& distinct(command_ids(flat_commands(t)))
    &&& deps_sound(flat_commands(t))
    &&& orderable(dep_graph(flat_commands(t)))
}

/// The model of a result of settling or loading.
pub open spec fn outcome_view(r: Result<CommandGroup, InheritError>) -> Result<
    GroupView,
    StopView,
> {
    match r {
        Ok(t) => Ok(t@),
        Err(e) => Err(e@),
    }
}

/// Validates a tree and settles it in the directory `cwd`.
///
/// Succeeds exactly when the tree is sound, its dependencies are sound, and
/// inheritance finds every directory in `table`. A settled tree still has
/// unique identifiers and sound dependencies. Every group and every
/// command of it has an absolute working directory that exists, and rules
/// that name only absolute canonical paths that exist; an empty `cwd`
/// stands for the directory of the process. Settling the settled tree
/// again in the same directory gives it back as it is.
pub fn settle_tree(tree: CommandGroup, cwd: &str, table: &PathTable) -> (r: Result<
    CommandGroup,
    InheritError,
>)
    ensures
        settles_to(tree@, cwd@, table@, outcome_view(r)),
        r matches Ok(t) ==> settled_sound(t@),
        r matches Ok(t) ==> tree_settled(t@, table@) && all_settled(flat_commands(t@), table@),
        r matches Ok(t) ==> group_inherited(t@, root_frame(cwd@), table@) == Ok::<
            GroupView,
            StopView,
        >(t@),
{
    match validate_tree(&tree) {
        Err(e) => {
            return Err(InheritError::Failed(e));
        },
        Ok(_) => {},
    }
    match validate_dependencies(&tree) {
        Err(e) => {
            return Err(InheritError::Failed(e));
        },
        Ok(_) => {},
    }
    table.sound();
    let frame = Inheritance::from(String::from_str(cwd));
    let mut settled = tree;
    let ghost before = settled@;
    match settled.inherit(&frame, table) {
        Err(e) => Err(e),
        Ok(_) => {
            proof {
                lemma_tree_keeps_nodes(before, root_frame(cwd@), table@);
                lemma_tree_keeps_wiring(before, root_frame(cwd@), table@);
                lemma_wiring_graph(flat_commands(settled@), flat_commands(before));
                lemma_commands_distinct(settled@);
                lemma_envs_unique(before, root_frame(cwd@), table@);
                lemma_tree_settled(before, root_frame(cwd@), table@);
                lemma_load_again(before, cwd@, table@);
            }
            Ok(settled)
        },
    }
}

/// Builds the command tree that a parsed configuration stands for, and
/// settles it in the directory `cwd`.
///
/// Identifiers that the configuration leaves out are drawn at random, so the
/// contract speaks of some tree that the configuration converts to. Where a
/// pattern is refused, that is the error, and no tree is built.
pub fn load_config(parsed: &Config, cwd: &str, table: &PathTable) -> (r: Result<
    CommandGroup,
    InheritError,
>)
    ensures
        !patterns_outcome(group_patterns(parsed.root@), true) ==> (r matches Err(
            InheritError::Failed(e),
        ) && first_bad_pattern(group_patterns(parsed.root@), e@)),
        patterns_outcome(group_patterns(parsed.root@), true) ==> exists|built: GroupView|
            #[trigger] group_converts(parsed.root@, built) && settles_to(
                built,
                cwd@,
                table@,
                outcome_view(r),
            ),
        r matches Ok(t) ==> settled_sound(t@),
        r matches Ok(t) ==> tree_settled(t@, table@) && all_settled(flat_commands(t@), table@),
        r matches Ok(t) ==> group_inherited(t@, root_frame(cwd@), table@) == Ok::<
            GroupView,
            StopView,
        >(t@),
{
    match CommandGroup::from_config(&parsed.root) {
        Err(e) => Err(InheritError::Failed(e)),
        Ok(tree) => {
            let ghost built = tree@;
            let r = settle_tree(tree, cwd, table);
            assert(group_converts(parsed.root@, built) && settles_to(
                built,
                cwd@,
                table@,
                outcome_view(r),
            ));
            r
        },
    }
}

} // verus!
