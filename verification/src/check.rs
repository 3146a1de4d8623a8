//! The headless check: which commands to run, in which order, and what
//! becomes of each.

use vstd::prelude::*;
use vstd::string::*;
use crate::commands::auto::strs;
use crate::commands::command::{commands_view, refs_view, Command, CommandView};
use crate::graph::{
    closed, deps_among, graph_of, ints, is_selection, kahn_order, orderable, reach, reachable,
    respects_edges, topological_order,
};
use crate::commands::group::{flat_commands, CommandGroup, GroupView};
use crate::selectors::git::{GitScan, ScanView};
use crate::selectors::{get_selected_commands, selection, SelectorError};
use crate::text::{
    concat2, concat3, concat4, concat5, decimal, decimal_digits, find_text, join_with, joined_with,
    lemma_position_of, listed, pad_left, position_of, right_aligned,
};
use crate::complete::{lemma_expanded_distinct, lemma_expanded_orderable};
use crate::validate::{command_ids, dep_graph, distinct, ids_of, repeats_at};

verus! {

/// The positions that the dependencies `deps` name among `ids`, in order;
/// a dependency that names none is left out.
pub open spec fn row_links(ids: Seq<Seq<char>>, deps: Seq<Seq<char>>) -> Seq<int>
    decreases deps.len(),
{
    if deps.len() == 0 {
        Seq::empty()
    } else if listed(ids, deps.last()) {
        row_links(ids, deps.drop_last()).push(position_of(ids, deps.last()))
    } else {
        row_links(ids, deps.drop_last())
    }
}

/// The dependency graph within a list of commands, by position: an edge for
/// each dependency that names a command of the list.
pub open spec fn link_graph(cmds: Seq<CommandView>) -> Seq<Seq<int>> {
    Seq::new(cmds.len(), |i: int| row_links(command_ids(cmds), cmds[i].depends_on))
}

/// What a row of links holds: exactly the positions of the dependencies
/// that name a command.
pub proof fn lemma_row_links(ids: Seq<Seq<char>>, deps: Seq<Seq<char>>)
    ensures
        forall|t: int|
            0 <= t < row_links(ids, deps).len() ==> 0 <= #[trigger] row_links(ids, deps)[t]
                < ids.len(),
        forall|k: int|
            0 <= k < deps.len() && listed(ids, #[trigger] deps[k]) ==> row_links(
                ids,
                deps,
            ).contains(position_of(ids, deps[k])),
    decreases deps.len(),
{
    if deps.len() > 0 {
        let init = deps.drop_last();
        lemma_row_links(ids, init);
        lemma_position_of(ids, deps.last());
        let row = row_links(ids, deps);
        let before = row_links(ids, init);
        assert forall|k: int| 0 <= k < deps.len() && listed(ids, #[trigger] deps[k]) implies row.contains(
            position_of(ids, deps[k]),
        ) by {
            if k < deps.len() - 1 {
                assert(init[k] == deps[k]);
                assert(before.contains(position_of(ids, deps[k])));
                let t = choose|t: int|
                    0 <= t < before.len() && before[t] == position_of(ids, deps[k]);
                assert(row[t] == position_of(ids, deps[k]));
            } else {
                assert(row[row.len() - 1] == position_of(ids, deps[k]));
            }
        }
    }
}

/// Every link leads to a command of the list.
pub proof fn lemma_link_graph_closed(cmds: Seq<CommandView>)
    ensures
        closed(link_graph(cmds)),
{
    let g = link_graph(cmds);
    assert forall|a: int, k: int| 0 <= a < g.len() && 0 <= k < g[a].len() implies 0
        <= #[trigger] g[a][k] < g.len() by {
        lemma_row_links(command_ids(cmds), cmds[a].depends_on);
    }
}

/// The dependency graph within a list of commands, by position.
pub fn dependency_links(commands: &Vec<&Command>) -> (r: Vec<Vec<usize>>)
    ensures
        graph_of(r@) == link_graph(refs_view(commands@)),
        closed(graph_of(r@)),
        r@.len() == commands@.len(),
{
    let ghost cmds = refs_view(commands@);
    let ids = ids_of(commands);
    let mut adj: Vec<Vec<usize>> = Vec::new();
    let mut i: usize = 0;
    while i < commands.len()
        invariant
            i <= commands.len(),
            cmds == refs_view(commands@),
            strs(ids@) == command_ids(cmds),
            adj@.len() == i,
            forall|a: int| 0 <= a < i ==> graph_of(adj@)[a] == #[trigger] link_graph(cmds)[a],
        decreases commands.len() - i,
    {
        let deps = &commands[i].depends_on;
        let ghost wanted = cmds[i as int].depends_on;
        let mut row: Vec<usize> = Vec::new();
        let mut k: usize = 0;
        assert(wanted.take(0) =~= Seq::<Seq<char>>::empty());
        assert(ints(row@) =~= row_links(strs(ids@), wanted.take(0)));
        while k < deps.len()
            invariant
                k <= deps.len(),
                wanted == strs(deps@),
                ints(row@) == row_links(strs(ids@), wanted.take(k as int)),
            decreases deps.len() - k,
        {
            proof {
                let next = wanted.take(k + 1);
                assert(next.drop_last() =~= wanted.take(k as int));
                assert(next.last() == deps@[k as int]@);
            }
            let at = find_text(&ids, &deps[k]);
            if at < ids.len() {
                let ghost before = ints(row@);
                row.push(at);
                assert(ints(row@) =~= before.push(at as int));
            }
            k += 1;
        }
        assert(wanted.take(k as int) =~= wanted);
        let ghost before = graph_of(adj@);
        let ghost links = ints(row@);
        adj.push(row);
        proof {
            assert(graph_of(adj@)[i as int] =~= links);
            assert forall|a: int| 0 <= a < i + 1 implies graph_of(adj@)[a] == #[trigger] link_graph(
                cmds,
            )[a] by {
                if a < i {
                    assert(graph_of(adj@)[a] =~= before[a]);
                }
            }
        }
        i += 1;
    }
    proof {
        assert(graph_of(adj@) =~= link_graph(cmds));
        lemma_link_graph_closed(cmds);
    }
    adj
}

/// Where expansion starts: the commands of `all` whose identifier is one of
/// the selected.
pub open spec fn start_marks(selected: Seq<CommandView>, all: Seq<CommandView>) -> Seq<bool> {
    Seq::new(all.len(), |i: int| listed(command_ids(selected), all[i].id))
}

/// The command at `i` belongs to the dependency closure of the selection:
/// following dependencies from a selected command leads to it.
pub open spec fn in_closure(selected: Seq<CommandView>, all: Seq<CommandView>, i: int) -> bool {
    reachable(link_graph(all), start_marks(selected, all), i)
}

/// The first `upto` commands of `all` that belong to the closure, in order.
pub open spec fn expanded_upto(
    selected: Seq<CommandView>,
    all: Seq<CommandView>,
    upto: int,
) -> Seq<CommandView>
    decreases upto,
{
    if upto <= 0 {
        Seq::empty()
    } else if in_closure(selected, all, upto - 1) {
        expanded_upto(selected, all, upto - 1).push(all[upto - 1])
    } else {
        expanded_upto(selected, all, upto - 1)
    }
}

/// The selection with everything it depends on, directly or not, in the
/// order of `all`.
pub open spec fn expanded(selected: Seq<CommandView>, all: Seq<CommandView>) -> Seq<CommandView> {
    expanded_upto(selected, all, all.len() as int)
}

fn refs_of(all: &Vec<Command>) -> (r: Vec<&Command>)
    ensures
        refs_view(r@) == commands_view(all@),
        r@.len() == all@.len(),
        forall|i: int| 0 <= i < all@.len() ==> *r@[i] == all@[i],
{
    let mut out: Vec<&Command> = Vec::new();
    let mut i: usize = 0;
    while i < all.len()
        invariant
            i <= all.len(),
            out@.len() == i,
            forall|j: int| 0 <= j < i ==> *out@[j] == all@[j],
        decreases all.len() - i,
    {
        out.push(&all[i]);
        i += 1;
    }
    assert(refs_view(out@) =~= commands_view(all@));
    out
}

/// Expand selected commands to include all transitive dependencies.
pub fn expand_dependencies<'a>(selected: &Vec<&Command>, all_commands: &'a Vec<Command>) -> (r:
    Vec<&'a Command>)
    ensures
        refs_view(r@) == expanded(refs_view(selected@), commands_view(all_commands@)),
{
    let ghost all = commands_view(all_commands@);
    let ghost chosen = refs_view(selected@);
    let refs = refs_of(all_commands);
    let adj = dependency_links(&refs);
    let selected_ids = ids_of(selected);
    let mut starts: Vec<bool> = Vec::new();
    let mut i: usize = 0;
    while i < all_commands.len()
        invariant
            i <= all_commands.len(),
            all == commands_view(all_commands@),
            strs(selected_ids@) == command_ids(chosen),
            starts@.len() == i,
            forall|a: int| 0 <= a < i ==> starts@[a] == start_marks(chosen, all)[a],
        decreases all_commands.len() - i,
    {
        let at = find_text(&selected_ids, &all_commands[i].id);
        starts.push(at < selected_ids.len());
        i += 1;
    }
    assert(starts@ =~= start_marks(chosen, all));
    let marks = reach(&adj, &starts);
    let mut out: Vec<&Command> = Vec::new();
    let mut k: usize = 0;
    assert(refs_view(out@) =~= expanded_upto(chosen, all, 0));
    while k < all_commands.len()
        invariant
            k <= all_commands.len(),
            all == commands_view(all_commands@),
            marks@.len() == all_commands@.len(),
            forall|v: int| 0 <= v < all.len() ==> (#[trigger] marks@[v]) == in_closure(chosen, all, v),
            refs_view(out@) == expanded_upto(chosen, all, k as int),
        decreases all_commands.len() - k,
    {
        if marks[k] {
            let ghost before = refs_view(out@);
            out.push(&all_commands[k]);
            assert(refs_view(out@) =~= before.push(all[k as int]));
        }
        k += 1;
    }
    out
}

/// The commands at the positions `order`, in that order.
pub open spec fn arranged(cmds: Seq<CommandView>, order: Seq<int>) -> Seq<CommandView> {
    Seq::new(order.len(), |p: int| cmds[order[p]])
}

/// The commands in execution order: each after everything it depends on.
/// Commands without dependencies come first, in their order in `cmds`; the
/// others follow as the last command they waited for is placed.
pub open spec fn ordered(cmds: Seq<CommandView>) -> Seq<CommandView> {
    arranged(cmds, kahn_order(link_graph(cmds)))
}

/// Every command of `order` stands after each command of `cmds` that it
/// depends on: for each dependency that names a command of `cmds`, a command
/// with that identifier stands earlier in `order`.
pub open spec fn respects_dependencies(cmds: Seq<CommandView>, order: Seq<CommandView>) -> bool {
    forall|p: int, k: int|
        0 <= p < order.len() && 0 <= k < order[p].depends_on.len() && listed(
            command_ids(cmds),
            #[trigger] order[p].depends_on[k],
        ) ==> exists|q: int| 0 <= q < p && #[trigger] order[q].id == order[p].depends_on[k]
}

/// Topological sort using Kahn's algorithm.
///
/// Gives the commands in the order [`ordered`], which respects every
/// dependency among them. A command that lies on a dependency cycle, or
/// depends on one that does, is left out; where the dependencies can be put
/// in order, nothing is left out.
pub fn topo_sort<'a>(commands: &Vec<&'a Command>) -> (r: Vec<&'a Command>)
    ensures
        refs_view(r@) == ordered(refs_view(commands@)),
        respects_dependencies(refs_view(commands@), refs_view(r@)),
        respects_dependencies(refs_view(r@), refs_view(r@)),
        distinct(command_ids(refs_view(commands@))) ==> distinct(command_ids(refs_view(r@))),
        orderable(link_graph(refs_view(commands@))) ==> r@.len() == commands@.len(),
{
    let ghost cmds = refs_view(commands@);
    let ghost g = link_graph(cmds);
    let adj = dependency_links(commands);
    let order = topological_order(&adj);
    let mut out: Vec<&'a Command> = Vec::new();
    let mut p: usize = 0;
    while p < order.len()
        invariant
            p <= order.len(),
            cmds == refs_view(commands@),
            is_selection(link_graph(cmds), ints(order@)),
            out@.len() == p,
            forall|q: int| 0 <= q < p ==> out@[q]@ == cmds[ints(order@)[q]],
        decreases order.len() - p,
    {
        assert(0 <= ints(order@)[p as int] < link_graph(cmds).len());
        out.push(commands[order[p]]);
        p += 1;
    }
    proof {
        let placed = refs_view(out@);
        let seq = ints(order@);
        assert(placed =~= ordered(cmds));
        let ids = command_ids(cmds);
        assert forall|p: int, k: int|
            0 <= p < placed.len() && 0 <= k < placed[p].depends_on.len() && listed(
                ids,
                #[trigger] placed[p].depends_on[k],
            ) implies exists|q: int| 0 <= q < p && #[trigger] placed[q].id == placed[p].depends_on[k] by {
            let i = seq[p];
            assert(0 <= i < g.len());
            let dep = cmds[i].depends_on[k];
            lemma_row_links(ids, cmds[i].depends_on);
            lemma_position_of(ids, dep);
            let target = position_of(ids, dep);
            assert(g[i].contains(target));
            let t = choose|t: int| 0 <= t < g[i].len() && g[i][t] == target;
            assert(deps_among(g, seq, p, seq[p]));
            assert(seq.take(p).contains(g[i][t]));
            let q = choose|q: int| 0 <= q < seq.take(p).len() && seq.take(p)[q] == target;
            assert(seq[q] == target);
            assert(placed[q].id == dep);
        }
        assert forall|p: int, k: int|
            0 <= p < placed.len() && 0 <= k < placed[p].depends_on.len() && listed(
                command_ids(placed),
                #[trigger] placed[p].depends_on[k],
            ) implies listed(ids, placed[p].depends_on[k]) by {
            let dep = placed[p].depends_on[k];
            lemma_position_of(command_ids(placed), dep);
            let q = position_of(command_ids(placed), dep);
            assert(placed[q].id == dep);
            assert(ids[seq[q]] == dep);
            lemma_position_of(ids, dep);
        }
        if distinct(ids) {
            assert forall|j: int| 0 <= j < placed.len() implies !#[trigger] repeats_at(
                command_ids(placed),
                j,
            ) by {
                if repeats_at(command_ids(placed), j) {
                    let i = choose|i: int|
                        0 <= i < j && #[trigger] command_ids(placed)[i] == command_ids(placed)[j];
                    assert(seq[i] != seq[j]);
                    assert(ids[seq[i]] == ids[seq[j]]);
                    if seq[i] < seq[j] {
                        assert(repeats_at(ids, seq[j]));
                    } else {
                        assert(repeats_at(ids, seq[i]));
                    }
                }
            }
        }
    }
    out
}

/// What became of a command in a run.
#[derive(Debug, Clone, Copy, PartialEq, Eq, Structural)]
pub enum Verdict {
    /// It ran and succeeded.
    Passed,
    /// It ran and failed.
    Failed,
    /// It did not run, because something it depends on failed or was skipped.
    Skipped,
}

/// Some dependency of the command at `p` is the identifier of a command that
/// the log records as failed or skipped.
pub open spec fn dep_failed(ordered: Seq<CommandView>, log: Seq<Verdict>, p: int) -> bool {
    exists|k: int, q: int|
        0 <= k < ordered[p].depends_on.len() && 0 <= q < log.len() && q < ordered.len() && log[q]
            != Verdict::Passed && #[trigger] ordered[q].id == #[trigger] ordered[p].depends_on[k]
}

/// The log of a run that skipped exactly the commands with a failed or
/// skipped dependency before them.
pub open spec fn well_run(ordered: Seq<CommandView>, log: Seq<Verdict>) -> bool {
    &&& log.len() <= ordered.len()
    &&& forall|p: int|
        0 <= p < log.len() ==> ((#[trigger] log[p]) == Verdict::Skipped) == dep_failed(
            ordered,
            log.take(p),
            p,
        )
}

/// The verdict on the next command, given whether it would succeed.
pub open spec fn verdict_for(ordered: Seq<CommandView>, log: Seq<Verdict>, success: bool) -> Verdict {
    if dep_failed(ordered, log, log.len() as int) {
        Verdict::Skipped
    } else if success {
        Verdict::Passed
    } else {
        Verdict::Failed
    }
}

/// How many entries of the log carry the verdict `v`.
pub open spec fn count_of(log: Seq<Verdict>, v: Verdict) -> nat
    decreases log.len(),
{
    if log.len() == 0 {
        0
    } else {
        count_of(log.drop_last(), v) + if log.last() == v {
            1nat
        } else {
            0nat
        }
    }
}

/// The identifiers of the commands that the log records as failed or
/// skipped, in order.
pub open spec fn failed_ids_of(ordered: Seq<CommandView>, log: Seq<Verdict>) -> Seq<Seq<char>>
    decreases log.len(),
{
    if log.len() == 0 {
        Seq::empty()
    } else if log.last() != Verdict::Passed {
        failed_ids_of(ordered, log.drop_last()).push(ordered[log.len() - 1].id)
    } else {
        failed_ids_of(ordered, log.drop_last())
    }
}

/// What the next step of a run is.
#[derive(Debug, Clone, Copy, PartialEq, Eq, Structural)]
pub enum CheckStep {
    /// Execute the command at this position, then record how it ended.
    Run(usize),
    /// The command at this position is skipped: record the skip.
    Skip(usize),
    /// Nothing is left to do.
    Finished,
}

/// Result of a headless check run, carrying state for a later hand-over.
#[derive(Debug)]
pub struct CheckResult {
    pub exit_code: i32,
    /// All command identifiers that were selected, expanded dependencies
    /// included.
    pub selected_ids: Vec<String>,
    /// Command identifiers that failed or were skipped due to a dependency
    /// failure.
    pub failed_ids: Vec<String>,
}

/// A run of the check: the commands in execution order and what became of
/// those that were dealt with so far.
pub struct CheckRun {
    ordered: Vec<Command>,
    log: Vec<Verdict>,
    fail_fast: bool,
    stopped: bool,
}

impl CheckRun {
    /// The run is well formed: exactly the commands with a failed or skipped
    /// dependency before them were skipped, and the run has stopped only
    /// after a failure with fail-fast on.
    pub open spec fn wf(self) -> bool {
        &&& well_run(self.commands(), self.verdicts())
        &&& self.halted() ==> self.stops_early() && self.verdicts().len() > 0
            && self.verdicts().last() == Verdict::Failed
    }

    /// The commands of the run, in execution order.
    pub closed spec fn commands(self) -> Seq<CommandView> {
        commands_view(self.ordered@)
    }

    /// What became of the commands dealt with so far.
    pub closed spec fn verdicts(self) -> Seq<Verdict> {
        self.log@
    }

    /// Whether the run stops at the first failure.
    pub closed spec fn stops_early(self) -> bool {
        self.fail_fast
    }

    /// Whether a failure has stopped the run.
    pub closed spec fn halted(self) -> bool {
        self.stopped
    }

    /// The commands of the run have unique identifiers and stand in
    /// execution order: each after every command of the run that it depends
    /// on. A run planned over commands with unique identifiers is such.
    pub open spec fn planned(self) -> bool {
        &&& distinct(command_ids(self.commands()))
        &&& respects_dependencies(self.commands(), self.commands())
    }

    /// Whether nothing is left to do.
    pub open spec fn finished(self) -> bool {
        self.halted() || self.verdicts().len() >= self.commands().len()
    }

    /// A run over `ordered`, with nothing dealt with yet.
    pub fn new(ordered: Vec<Command>, fail_fast: bool) -> (r: Self)
        ensures
            r.commands() == commands_view(ordered@),
            r.verdicts() == Seq::<Verdict>::empty(),
            r.stops_early() == fail_fast,
            !r.halted(),
            r.wf(),
    {
        CheckRun { ordered, log: Vec::new(), fail_fast, stopped: false }
    }

    /// The commands of the run, in execution order.
    pub fn ordered(&self) -> (r: &Vec<Command>)
        ensures
            commands_view(r@) == self.commands(),
    {
        &self.ordered
    }

    /// What became of the commands dealt with so far.
    pub fn log(&self) -> (r: &Vec<Verdict>)
        ensures
            r@ == self.verdicts(),
    {
        &self.log
    }

    fn next_is_blocked(&self) -> (r: bool)
        requires
            self.log@.len() < self.ordered@.len(),
        ensures
            r == dep_failed(commands_view(self.ordered@), self.log@, self.log@.len() as int),
    {
        let ghost cmds = commands_view(self.ordered@);
        let p = self.log.len();
        let deps = &self.ordered[p].depends_on;
        let mut k: usize = 0;
        while k < deps.len()
            invariant
                k <= deps.len(),
                p == self.log@.len(),
                p < self.ordered@.len(),
                cmds == commands_view(self.ordered@),
                strs(deps@) == cmds[p as int].depends_on,
                forall|a: int, q: int|
                    0 <= a < k && 0 <= q < p && self.log@[q] != Verdict::Passed ==> #[trigger] cmds[q].id
                        != #[trigger] cmds[p as int].depends_on[a],
            decreases deps.len() - k,
        {
            let mut q: usize = 0;
            while q < p
                invariant
                    q <= p,
                    k < deps.len(),
                    p == self.log@.len(),
                    p < self.ordered@.len(),
                    cmds == commands_view(self.ordered@),
                    strs(deps@) == cmds[p as int].depends_on,
                    forall|b: int|
                        0 <= b < q && self.log@[b] != Verdict::Passed ==> #[trigger] cmds[b].id
                            != cmds[p as int].depends_on[k as int],
                decreases p - q,
            {
                assert(strs(deps@)[k as int] == deps@[k as int]@);
                if self.log[q] != Verdict::Passed && self.ordered[q].id.eq(&deps[k]) {
                    assert(cmds[q as int].id == cmds[p as int].depends_on[k as int]);
                    return true;
                }
                q += 1;
            }
            k += 1;
        }
        false
    }

    /// What to do next: nothing once the run has stopped or every command
    /// was dealt with; else skip the next command where something it depends
    /// on has failed or was skipped, and run it otherwise.
    pub fn next_step(&self) -> (r: CheckStep)
        ensures
            self.finished() <==> r == CheckStep::Finished,
            !self.finished() ==> r == if dep_failed(
                self.commands(),
                self.verdicts(),
                self.verdicts().len() as int,
            ) {
                CheckStep::Skip(self.verdicts().len() as usize)
            } else {
                CheckStep::Run(self.verdicts().len() as usize)
            },
    {
        if self.stopped || self.log.len() >= self.ordered.len() {
            CheckStep::Finished
        } else if self.next_is_blocked() {
            CheckStep::Skip(self.log.len())
        } else {
            CheckStep::Run(self.log.len())
        }
    }

    /// Records what became of the next command: a skip where it is blocked,
    /// whatever `success` says, and else a pass or a failure. With fail-fast
    /// on, a failure stops the run. A finished run is left as it is.
    pub fn record(&mut self, success: bool)
        requires
            old(self).wf(),
        ensures
            final(self).wf(),
            final(self).commands() == old(self).commands(),
            final(self).stops_early() == old(self).stops_early(),
            old(self).finished() ==> final(self).verdicts() == old(self).verdicts()
                && final(self).halted() == old(self).halted(),
            !old(self).finished() ==> {
                let v = verdict_for(old(self).commands(), old(self).verdicts(), success);
                &&& final(self).verdicts() == old(self).verdicts().push(v)
                &&& final(self).halted() == (old(self).stops_early() && v == Verdict::Failed)
            },
    {
        if self.stopped || self.log.len() >= self.ordered.len() {
            return;
        }
        let ghost cmds = commands_view(self.ordered@);
        let ghost before = self.log@;
        let verdict = if self.next_is_blocked() {
            Verdict::Skipped
        } else if success {
            Verdict::Passed
        } else {
            Verdict::Failed
        };
        let stop = self.fail_fast && verdict == Verdict::Failed;
        proof {
            let after = before.push(verdict);
            assert forall|p: int| 0 <= p < after.len() implies ((#[trigger] after[p])
                == Verdict::Skipped) == dep_failed(cmds, after.take(p), p) by {
                if p < before.len() {
                    assert(after.take(p) =~= before.take(p));
                } else {
                    assert(after.take(p) =~= before);
                }
            }
        }
        self.log.push(verdict);
        self.stopped = stop;
    }

    /// How many commands passed, failed and were skipped so far.
    pub fn counts(&self) -> (r: (usize, usize, usize))
        ensures
            r.0 == count_of(self.verdicts(), Verdict::Passed),
            r.1 == count_of(self.verdicts(), Verdict::Failed),
            r.2 == count_of(self.verdicts(), Verdict::Skipped),
    {
        let mut passed: usize = 0;
        let mut failed: usize = 0;
        let mut skipped: usize = 0;
        let mut i: usize = 0;
        assert(self.log@.take(0) =~= Seq::<Verdict>::empty());
        while i < self.log.len()
            invariant
                i <= self.log.len(),
                passed == count_of(self.log@.take(i as int), Verdict::Passed),
                failed == count_of(self.log@.take(i as int), Verdict::Failed),
                skipped == count_of(self.log@.take(i as int), Verdict::Skipped),
                passed + failed + skipped == i,
            decreases self.log.len() - i,
        {
            proof {
                let next = self.log@.take(i + 1);
                assert(next.drop_last() =~= self.log@.take(i as int));
                assert(next.last() == self.log@[i as int]);
            }
            match self.log[i] {
                Verdict::Passed => {
                    passed += 1;
                },
                Verdict::Failed => {
                    failed += 1;
                },
                Verdict::Skipped => {
                    skipped += 1;
                },
            }
            i += 1;
        }
        assert(self.log@.take(i as int) =~= self.log@);
        (passed, failed, skipped)
    }

    /// The result of the run so far: exit code 1 where anything failed or
    /// was skipped and 0 otherwise, the identifiers of all commands of the
    /// run, and those of the commands that failed or were skipped. Where
    /// the commands have unique identifiers, neither list holds one twice.
    pub fn result(&self) -> (r: CheckResult)
        requires
            self.wf(),
        ensures
            strs(r.selected_ids@) == command_ids(self.commands()),
            strs(r.failed_ids@) == failed_ids_of(self.commands(), self.verdicts()),
            r.exit_code == if failed_ids_of(self.commands(), self.verdicts()).len() == 0 {
                0i32
            } else {
                1i32
            },
            distinct(command_ids(self.commands())) ==> distinct(strs(r.selected_ids@)) && distinct(
                strs(r.failed_ids@),
            ),
    {
        let ghost cmds = commands_view(self.ordered@);
        proof {
            if distinct(command_ids(cmds)) {
                lemma_failed_ids_distinct(cmds, self.log@);
            }
        }
        let mut selected_ids: Vec<String> = Vec::new();
        let mut i: usize = 0;
        while i < self.ordered.len()
            invariant
                i <= self.ordered.len(),
                selected_ids@.len() == i,
                forall|j: int| 0 <= j < i ==> selected_ids@[j]@ == self.ordered@[j]@.id,
            decreases self.ordered.len() - i,
        {
            selected_ids.push(self.ordered[i].id.clone());
            i += 1;
        }
        assert(strs(selected_ids@) =~= command_ids(cmds));
        let mut failed_ids: Vec<String> = Vec::new();
        let mut p: usize = 0;
        assert(self.log@.take(0) =~= Seq::<Verdict>::empty());
        assert(strs(failed_ids@) =~= failed_ids_of(cmds, self.log@.take(0)));
        while p < self.log.len()
            invariant
                p <= self.log.len(),
                self.log@.len() <= self.ordered@.len(),
                cmds == commands_view(self.ordered@),
                strs(failed_ids@) == failed_ids_of(cmds, self.log@.take(p as int)),
            decreases self.log.len() - p,
        {
            proof {
                let next = self.log@.take(p + 1);
                assert(next.drop_last() =~= self.log@.take(p as int));
                assert(next.last() == self.log@[p as int]);
            }
            if self.log[p] != Verdict::Passed {
                let ghost before = strs(failed_ids@);
                failed_ids.push(self.ordered[p].id.clone());
                assert(strs(failed_ids@) =~= before.push(cmds[p as int].id));
            }
            p += 1;
        }
        assert(self.log@.take(p as int) =~= self.log@);
        let exit_code: i32 = if failed_ids.len() == 0 {
            0
        } else {
            1
        };
        CheckResult { exit_code, selected_ids, failed_ids }
    }
}

/// A command that depends on a failed or skipped command is skipped: it
/// is never run.
pub proof fn lemma_failed_dependency_skips(
    ordered: Seq<CommandView>,
    log: Seq<Verdict>,
    q: int,
    p: int,
    k: int,
)
    requires
        well_run(ordered, log),
        0 <= q < p < log.len(),
        log[q] != Verdict::Passed,
        0 <= k < ordered[p].depends_on.len(),
        ordered[p].depends_on[k] == ordered[q].id,
    ensures
        log[p] == Verdict::Skipped,
{
    assert(log.take(p)[q] == log[q]);
    assert(dep_failed(ordered, log.take(p), p));
}

/// `chain` leads from a command to one that depends on it, and from that to
/// one that depends on it, and so on.
pub open spec fn dependent_chain(ordered: Seq<CommandView>, chain: Seq<int>) -> bool {
    &&& chain.len() > 0
    &&& forall|t: int| 0 <= t < chain.len() ==> 0 <= #[trigger] chain[t] < ordered.len()
    &&& forall|t: int|
        0 <= t < chain.len() - 1 ==> ordered[#[trigger] chain[t + 1]].depends_on.contains(
            ordered[chain[t]].id,
        )
}

/// In a run whose commands have unique identifiers and stand in execution
/// order, a command stands after every command of the run that it depends
/// on.
pub proof fn lemma_dependent_comes_later(ordered: Seq<CommandView>, a: int, b: int)
    requires
        distinct(command_ids(ordered)),
        respects_dependencies(ordered, ordered),
        0 <= a < ordered.len(),
        0 <= b < ordered.len(),
        ordered[b].depends_on.contains(ordered[a].id),
    ensures
        a < b,
{
    let ids = command_ids(ordered);
    let deps = ordered[b].depends_on;
    let k = choose|k: int| 0 <= k < deps.len() && deps[k] == ordered[a].id;
    lemma_position_of(ids, deps[k]);
    if position_of(ids, deps[k]) > a {
        assert(ids[a] != deps[k]);
    }
    assert(listed(ids, ordered[b].depends_on[k]));
    let q = choose|q: int| 0 <= q < b && #[trigger] ordered[q].id == ordered[b].depends_on[k];
    assert(ids[q] == ids[a]);
    if q < a {
        assert(repeats_at(ids, a));
    }
    if a < q {
        assert(repeats_at(ids, q));
    }
}

/// When a command fails or is skipped, every command of the run that
/// depends on it, directly or through others, is skipped where the run
/// gets to it: none of them is handed to the shell. This holds of every
/// chain of dependencies within a run whose commands have unique
/// identifiers and stand in execution order, as a planned run has them.
pub proof fn lemma_failure_spreads(
    ordered: Seq<CommandView>,
    log: Seq<Verdict>,
    chain: Seq<int>,
    t: int,
)
    requires
        well_run(ordered, log),
        distinct(command_ids(ordered)),
        respects_dependencies(ordered, ordered),
        dependent_chain(ordered, chain),
        log[chain[0]] != Verdict::Passed,
        chain[0] < log.len(),
        1 <= t < chain.len(),
        chain[t] < log.len(),
    ensures
        log[chain[t]] == Verdict::Skipped,
        chain[t - 1] < chain[t],
    decreases t,
{
    let deps = ordered[chain[t - 1 + 1]].depends_on;
    assert(deps.contains(ordered[chain[t - 1]].id));
    lemma_dependent_comes_later(ordered, chain[t - 1], chain[t]);
    if t > 1 {
        lemma_failure_spreads(ordered, log, chain, t - 1);
    }
    let k = choose|k: int| 0 <= k < deps.len() && deps[k] == ordered[chain[t - 1]].id;
    lemma_failed_dependency_skips(ordered, log, chain[t - 1], chain[t], k);
}

/// A command that failed or was skipped is reported among the failed, so
/// that the run ends with exit code 1.
pub proof fn lemma_failed_is_reported(ordered: Seq<CommandView>, log: Seq<Verdict>, p: int)
    requires
        0 <= p < log.len(),
        log[p] != Verdict::Passed,
    ensures
        failed_ids_of(ordered, log).contains(ordered[p].id),
        failed_ids_of(ordered, log).len() > 0,
    decreases log.len(),
{
    let out = failed_ids_of(ordered, log);
    if p == log.len() - 1 {
        assert(out.last() == ordered[p].id);
    } else {
        lemma_failed_is_reported(ordered, log.drop_last(), p);
        let rest = failed_ids_of(ordered, log.drop_last());
        let t = choose|t: int| 0 <= t < rest.len() && rest[t] == ordered[p].id;
        assert(out[t] == ordered[p].id);
    }
}

/// The identifiers that a log records as failed or skipped are identifiers
/// of commands of the run, each taken once.
pub proof fn lemma_failed_ids_distinct(ordered: Seq<CommandView>, log: Seq<Verdict>)
    requires
        log.len() <= ordered.len(),
        distinct(command_ids(ordered)),
    ensures
        distinct(failed_ids_of(ordered, log)),
        forall|t: int|
            0 <= t < failed_ids_of(ordered, log).len() ==> exists|j: int|
                0 <= j < log.len() && ordered[j].id == #[trigger] failed_ids_of(ordered, log)[t],
    decreases log.len(),
{
    let ids = command_ids(ordered);
    let out = failed_ids_of(ordered, log);
    if log.len() > 0 {
        let rest = failed_ids_of(ordered, log.drop_last());
        lemma_failed_ids_distinct(ordered, log.drop_last());
        let last = log.len() - 1;
        assert forall|t: int| 0 <= t < out.len() implies exists|j: int|
            0 <= j < log.len() && ordered[j].id == #[trigger] out[t] by {
            if t < rest.len() {
                let j = choose|j: int| 0 <= j < log.drop_last().len() && ordered[j].id == rest[t];
                assert(out[t] == rest[t]);
                assert(0 <= j < log.len() && ordered[j].id == out[t]);
            } else {
                assert(ordered[last].id == out[t]);
            }
        }
        assert forall|j: int| 0 <= j < out.len() implies !#[trigger] repeats_at(out, j) by {
            if repeats_at(out, j) {
                let i = choose|i: int| 0 <= i < j && #[trigger] out[i] == out[j];
                if j < rest.len() {
                    assert(rest[i] == rest[j]);
                    assert(repeats_at(rest, j));
                } else {
                    let a = choose|a: int| 0 <= a < log.drop_last().len() && ordered[a].id == rest[i];
                    assert(ids[a] == ids[last]);
                    assert(repeats_at(ids, last));
                }
            }
        }
    }
}

/// When a command of a run fails or is skipped, the run ends with exit
/// code 1 and reports the command as failed, and every command of the run
/// that depends on it, directly or through others, is skipped where the run
/// gets to it: it is never handed to the shell, and it is reported as
/// failed too. A run that was not stopped early gets to every command.
pub proof fn lemma_run_failure_spreads(run: CheckRun, chain: Seq<int>, t: int)
    requires
        run.wf(),
        run.planned(),
        dependent_chain(run.commands(), chain),
        chain[0] < run.verdicts().len(),
        run.verdicts()[chain[0]] != Verdict::Passed,
        0 <= t < chain.len(),
    ensures
        failed_ids_of(run.commands(), run.verdicts()).len() > 0,
        failed_ids_of(run.commands(), run.verdicts()).contains(run.commands()[chain[0]].id),
        t >= 1 && chain[t] < run.verdicts().len() ==> run.verdicts()[chain[t]] == Verdict::Skipped
            && failed_ids_of(run.commands(), run.verdicts()).contains(
            run.commands()[chain[t]].id,
        ),
        run.finished() && !run.halted() ==> chain[t] < run.verdicts().len(),
{
    let cmds = run.commands();
    let log = run.verdicts();
    lemma_failed_is_reported(cmds, log, chain[0]);
    if t >= 1 && chain[t] < log.len() {
        lemma_failure_spreads(cmds, log, chain, t);
        lemma_failed_is_reported(cmds, log, chain[t]);
    }
}

/// Errors of the headless check.
#[derive(Debug)]
pub enum CheckError {
    /// Selecting the commands failed.
    Selector(SelectorError),
}

impl CheckError {
    /// The error as a line of text.
    pub fn message(&self) -> (r: String)
        ensures
            match self {
                CheckError::Selector(SelectorError::Git(m)) => r@ == "selector error: "@
                    + "Git operation failed: "@ + m@,
            },
    {
        match self {
            CheckError::Selector(e) => {
                let mut r = String::from_str("selector error: ");
                let inner = e.message();
                r.append(inner.as_str());
                r
            },
        }
    }
}

/// The commands of a check over the tree `config`, in execution order: the
/// selection, with everything it depends on, each after its dependencies.
pub open spec fn check_order(config: GroupView, scan: ScanView) -> Seq<CommandView> {
    ordered(expanded(selection(flat_commands(config), scan), flat_commands(config)))
}

/// Plans a run over the commands `selected` out of `all_commands`: the
/// selected commands with everything they depend on, in execution order.
/// Where the commands have unique identifiers and their dependencies can be
/// put in order, none of them is left out.
pub fn plan_selected(selected: &Vec<&Command>, all_commands: &Vec<Command>, fail_fast: bool) -> (r:
    CheckRun)
    ensures
        r.wf(),
        r.commands() == ordered(expanded(refs_view(selected@), commands_view(all_commands@))),
        r.verdicts() == Seq::<Verdict>::empty(),
        r.stops_early() == fail_fast,
        !r.halted(),
        distinct(command_ids(commands_view(all_commands@))) && orderable(
            dep_graph(commands_view(all_commands@)),
        ) ==> r.commands().len() == expanded(
            refs_view(selected@),
            commands_view(all_commands@),
        ).len(),
        respects_dependencies(r.commands(), r.commands()),
        distinct(command_ids(commands_view(all_commands@))) ==> r.planned(),
{
    let commands_to_run = expand_dependencies(selected, all_commands);
    proof {
        if distinct(command_ids(commands_view(all_commands@))) {
            lemma_expanded_distinct(refs_view(selected@), commands_view(all_commands@));
        }
        if distinct(command_ids(commands_view(all_commands@))) && orderable(
            dep_graph(commands_view(all_commands@)),
        ) {
            lemma_expanded_orderable(refs_view(selected@), commands_view(all_commands@));
        }
    }
    let order = topo_sort(&commands_to_run);
    CheckRun::new(crate::commands::command::cloned(&order), fail_fast)
}

/// Plans the headless check of a tree: selects by always-rule and by
/// version-control changes, expands the selection by its dependencies and
/// puts the result in execution order. Of a tree whose commands have
/// unique identifiers and dependencies that can be put in order, as a
/// settled tree has, no selected command and nothing it depends on is left
/// out.
pub fn plan(config: &CommandGroup, scan: &GitScan, fail_fast: bool) -> (r: Result<
    CheckRun,
    CheckError,
>)
    ensures
        r matches Ok(run) && run.wf() && run.commands() == check_order(config@, scan@)
            && run.verdicts() == Seq::<Verdict>::empty() && run.stops_early() == fail_fast
            && !run.halted(),
        distinct(command_ids(flat_commands(config@))) && orderable(
            dep_graph(flat_commands(config@)),
        ) ==> r->Ok_0.commands().len() == expanded(
            selection(flat_commands(config@), scan@),
            flat_commands(config@),
        ).len(),
        respects_dependencies(r->Ok_0.commands(), r->Ok_0.commands()),
        distinct(command_ids(flat_commands(config@))) ==> r->Ok_0.planned(),
{
    let all_refs = config.all_commands();
    let all_commands = crate::commands::command::cloned(&all_refs);
    let selected = match get_selected_commands(
        crate::commands::command::clone_commands(&all_commands),
        scan,
    ) {
        Ok(selected) => selected,
        Err(e) => {
            return Err(CheckError::Selector(e));
        },
    };
    let selected_refs = refs_of(&selected);
    Ok(plan_selected(&selected_refs, &all_commands, fail_fast))
}

/// The directory in which a command runs: its own where it names one, and
/// `cwd` otherwise.
pub fn working_dir(cmd: &Command, cwd: &str) -> (r: String)
    ensures
        r@ == if cmd@.cwd.len() == 0 {
            cwd@
        } else {
            cmd@.cwd
        },
{
    if cmd.cwd.as_str().is_empty() {
        String::from_str(cwd)
    } else {
        cmd.cwd.clone()
    }
}

/// Colour for the report: escape codes are written only where `color` is on.
#[derive(Debug, Clone, Copy)]
pub struct Style {
    pub color: bool,
}

/// `s` wrapped in the escape code `code`, where colour is on.
pub open spec fn styled(color: bool, code: Seq<char>, s: Seq<char>) -> Seq<char> {
    if color {
        "\x1b["@ + code + "m"@ + s + "\x1b[0m"@
    } else {
        s
    }
}

impl Style {
    /// A style that writes escape codes exactly when `color` is on.
    pub fn new(color: bool) -> (r: Self)
        ensures
            r.color == color,
    {
        Style { color }
    }

    /// `s` in the style with the escape code `code`.
    pub fn style(&self, code: &str, s: &str) -> (r: String)
        ensures
            r@ == styled(self.color, code@, s@),
    {
        if self.color {
            concat5("\x1b[", code, "m", s, "\x1b[0m")
        } else {
            String::from_str(s)
        }
    }

    /// `s` in bold.
    pub fn bold(&self, s: &str) -> (r: String)
        ensures
            r@ == styled(self.color, "1"@, s@),
    {
        self.style("1", s)
    }

    /// `s` in green.
    pub fn green(&self, s: &str) -> (r: String)
        ensures
            r@ == styled(self.color, "32"@, s@),
    {
        self.style("32", s)
    }

    /// `s` in red.
    pub fn red(&self, s: &str) -> (r: String)
        ensures
            r@ == styled(self.color, "31"@, s@),
    {
        self.style("31", s)
    }

    /// `s` in yellow.
    pub fn yellow(&self, s: &str) -> (r: String)
        ensures
            r@ == styled(self.color, "33"@, s@),
    {
        self.style("33", s)
    }

    /// `s` dimmed.
    pub fn dim(&self, s: &str) -> (r: String)
        ensures
            r@ == styled(self.color, "2"@, s@),
    {
        self.style("2", s)
    }
}

/// A duration as the report shows it: seconds and tenths below a minute,
/// minutes, seconds and tenths from a minute on. Tenths are cut, not rounded.
pub open spec fn duration_text(total_secs: nat, millis: nat) -> Seq<char> {
    if total_secs < 60 {
        decimal_digits(total_secs) + "."@ + decimal_digits(millis / 100) + "s"@
    } else {
        decimal_digits(total_secs / 60) + "m "@ + decimal_digits(total_secs % 60) + "."@
            + decimal_digits(millis / 100) + "s"@
    }
}

/// Formats a duration given as whole seconds and the milliseconds beyond.
pub fn format_duration(total_secs: u64, millis: u32) -> (r: String)
    ensures
        r@ == duration_text(total_secs as nat, millis as nat),
{
    let tenths = decimal((millis / 100) as u64);
    if total_secs < 60 {
        let secs = decimal(total_secs);
        concat4(secs.as_str(), ".", tenths.as_str(), "s")
    } else {
        let mins = decimal(total_secs / 60);
        let secs = decimal(total_secs % 60);
        let head = concat3(mins.as_str(), "m ", secs.as_str());
        concat4(head.as_str(), ".", tenths.as_str(), "s")
    }
}

/// The counter in front of a report line: the index, right-aligned to the
/// width of the total, a slash and the total, in square brackets.
pub open spec fn progress_text(idx: nat, total: nat) -> Seq<char> {
    "["@ + right_aligned(decimal_digits(idx), decimal_digits(total).len()) + "/"@
        + decimal_digits(total) + "]"@
}

/// The counter in front of the report line of command `idx` of `total`.
pub fn progress_prefix(idx: usize, total: usize) -> (r: String)
    ensures
        r@ == progress_text(idx as nat, total as nat),
{
    let total_text = decimal(total as u64);
    let width = crate::text::chars_of(total_text.as_str()).len();
    let idx_text = pad_left(decimal(idx as u64).as_str(), width);
    concat5("[", idx_text.as_str(), "/", total_text.as_str(), "]")
}

/// The parts of the summary that count: passed, failed and skipped, each
/// only where its number is not zero.
pub open spec fn summary_parts(color: bool, passed: nat, failed: nat, skipped: nat) -> Seq<
    Seq<char>,
> {
    (if passed > 0 {
        seq![styled(color, "32"@, decimal_digits(passed) + " passed"@)]
    } else {
        Seq::empty()
    }) + (if failed > 0 {
        seq![styled(color, "31"@, decimal_digits(failed) + " failed"@)]
    } else {
        Seq::empty()
    }) + (if skipped > 0 {
        seq![styled(color, "33"@, decimal_digits(skipped) + " skipped"@)]
    } else {
        Seq::empty()
    })
}

/// The summary line of a run.
pub open spec fn summary_text(
    color: bool,
    passed: nat,
    failed: nat,
    skipped: nat,
    total: nat,
    secs: nat,
    millis: nat,
) -> Seq<char> {
    styled(color, "1"@, decimal_digits(total) + " commands:"@) + " "@ + joined_with(
        summary_parts(color, passed, failed, skipped),
        styled(color, "2"@, ", "@),
    ) + " "@ + styled(color, "2"@, "("@ + duration_text(secs, millis) + ")"@)
}

/// The summary line of a run: how many commands there were, how many
/// passed, failed and were skipped, and how long it took.
pub fn summary_line(
    sty: &Style,
    passed: usize,
    failed: usize,
    skipped: usize,
    total: usize,
    secs: u64,
    millis: u32,
) -> (r: String)
    ensures
        r@ == summary_text(
            sty.color,
            passed as nat,
            failed as nat,
            skipped as nat,
            total as nat,
            secs as nat,
            millis as nat,
        ),
{
    let mut parts: Vec<String> = Vec::new();
    let ghost mut shown: Seq<Seq<char>> = Seq::empty();
    assert(strs(parts@) =~= shown);
    if passed > 0 {
        let text = concat2(decimal(passed as u64).as_str(), " passed");
        let part = sty.green(text.as_str());
        proof {
            shown = shown + seq![part@];
        }
        parts.push(part);
        assert(strs(parts@) =~= shown);
    }
    if failed > 0 {
        let text = concat2(decimal(failed as u64).as_str(), " failed");
        let part = sty.red(text.as_str());
        proof {
            shown = shown + seq![part@];
        }
        parts.push(part);
        assert(strs(parts@) =~= shown);
    }
    if skipped > 0 {
        let text = concat2(decimal(skipped as u64).as_str(), " skipped");
        let part = sty.yellow(text.as_str());
        proof {
            shown = shown + seq![part@];
        }
        parts.push(part);
        assert(strs(parts@) =~= shown);
    }
    assert(shown =~= summary_parts(sty.color, passed as nat, failed as nat, skipped as nat));
    let head_text = concat2(decimal(total as u64).as_str(), " commands:");
    let head = sty.bold(head_text.as_str());
    let sep = sty.dim(", ");
    let middle = join_with(&parts, sep.as_str());
    let time_text = concat3("(", format_duration(secs, millis).as_str(), ")");
    let tail = sty.dim(time_text.as_str());
    concat5(head.as_str(), " ", middle.as_str(), " ", tail.as_str())
}

} // verus!
