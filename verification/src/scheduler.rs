//! The scheduler: which processes exist, what each command is waiting for,
//! and what to start, kill or mark when something happens.
//!
//! Commands are known by their position in the flattened command list. The
//! scheduler decides; spawning and killing is left to the caller, who gets
//! the actions to perform. A command counts as running from the moment its
//! spawn is asked for; where the spawn fails, the caller reports it back.

use vstd::prelude::*;
use vstd::string::*;
use crate::check::{dependency_links, link_graph};
use crate::commands::auto::strs;
use crate::commands::command::{refs_view, Command};
use crate::graph::{closed, graph_of, ints, reach, reachable};
use crate::text::{
    concat3, concat4, find_text, lemma_position_is, lemma_position_of, position_of,
};
use crate::tui::app::{CommandStatus, StatusView};
use crate::validate::{command_ids, distinct, ids_of, repeats_at};

verus! {

/// What the caller is asked to do.
#[derive(Debug, Clone, Copy, PartialEq, Eq, Structural)]
pub enum SchedulerAction {
    /// Kill the process of the command at this position and abort its tasks.
    Kill(usize),
    /// Open a terminal for the command at this position and spawn it.
    Spawn(usize),
    /// Clear the terminal of the command at this position and abort its
    /// tasks.
    Clear(usize),
}

/// Mathematical model of the part of a [`Scheduler`] that changes.
pub struct SchedView {
    /// For each command, the status of its process instance, where one
    /// exists.
    pub statuses: Seq<Option<StatusView>>,
    /// For each command, the dependencies it is waiting for, where it waits.
    pub pending: Seq<Option<Seq<int>>>,
    /// For each command, why it could not run, where it could not.
    pub errors: Seq<Option<Seq<char>>>,
    /// For each command, whether it is selected.
    pub selected: Seq<bool>,
    /// The command whose terminal is shown.
    pub active: Option<int>,
}

/// The state of the scheduler.
pub struct Scheduler {
    ids: Vec<String>,
    names: Vec<String>,
    deps: Vec<Vec<usize>>,
    statuses: Vec<Option<CommandStatus>>,
    pending: Vec<Option<Vec<usize>>>,
    errors: Vec<Option<String>>,
    selected: Vec<bool>,
    active: Option<usize>,
}

/// The model of an optional status.
pub open spec fn status_view(s: Option<CommandStatus>) -> Option<StatusView> {
    match s {
        Some(s) => Some(s@),
        None => None,
    }
}

/// The model of an optional list of positions.
pub open spec fn pending_view(p: Option<Vec<usize>>) -> Option<Seq<int>> {
    match p {
        Some(v) => Some(ints(v@)),
        None => None,
    }
}

/// The model of an optional message.
pub open spec fn error_view(e: Option<String>) -> Option<Seq<char>> {
    match e {
        Some(m) => Some(m@),
        None => None,
    }
}

/// The dependency at `d` is satisfied: its last run ended in success.
pub open spec fn satisfied(s: SchedView, d: int) -> bool {
    s.statuses[d] == Some(StatusView::Success)
}

/// The dependencies of `row` that are not satisfied, in order.
pub open spec fn unresolved_of(s: SchedView, row: Seq<int>) -> Seq<int>
    decreases row.len(),
{
    if row.len() == 0 {
        Seq::empty()
    } else if satisfied(s, row.last()) {
        unresolved_of(s, row.drop_last())
    } else {
        unresolved_of(s, row.drop_last()).push(row.last())
    }
}

/// The command at `d` is neither running nor waiting, so that starting
/// something that depends on it starts it too.
pub open spec fn startable(s: SchedView, d: int) -> bool {
    s.statuses[d] != Some(StatusView::Running) && s.pending[d] is None
}

/// The active terminal after a start of `i`.
pub open spec fn active_after(active: Option<int>, i: int, set_active: bool) -> Option<int> {
    if set_active {
        Some(i)
    } else {
        active
    }
}

/// The state and the actions after starting the command at `i`.
///
/// Where every dependency is satisfied, the command is spawned, after its
/// old process was killed where it had one. Otherwise the unsatisfied
/// dependencies that are neither running nor waiting are started first, and
/// the command is recorded as waiting for all the unsatisfied ones. A
/// command that is spawned waits for nothing any more, and either way an
/// error that an earlier run left on the command is forgotten. `fuel`
/// bounds how deep dependencies are followed.
pub open spec fn start_spec(
    g: Seq<Seq<int>>,
    st: (SchedView, Seq<SchedulerAction>),
    i: int,
    set_active: bool,
    fuel: nat,
) -> (SchedView, Seq<SchedulerAction>)
    decreases fuel, 0int, 0int,
{
    let un = unresolved_of(st.0, g[i]);
    if un.len() > 0 {
        let st2 = if fuel > 0 {
            start_all(g, st, un, (fuel - 1) as nat)
        } else {
            st
        };
        (
            SchedView {
                pending: st2.0.pending.update(i, Some(un)),
                errors: st2.0.errors.update(i, None),
                active: active_after(st2.0.active, i, set_active),
                ..st2.0
            },
            st2.1,
        )
    } else {
        let kill = if st.0.statuses[i] is Some {
            seq![SchedulerAction::Kill(i as usize)]
        } else {
            Seq::empty()
        };
        (
            SchedView {
                statuses: st.0.statuses.update(i, Some(StatusView::Running)),
                pending: st.0.pending.update(i, None),
                errors: st.0.errors.update(i, None),
                active: active_after(st.0.active, i, set_active),
                ..st.0
            },
            st.1 + kill + seq![SchedulerAction::Spawn(i as usize)],
        )
    }
}

/// The state and the actions after starting, in order, each command of
/// `un` that is neither running nor waiting.
pub open spec fn start_all(
    g: Seq<Seq<int>>,
    st: (SchedView, Seq<SchedulerAction>),
    un: Seq<int>,
    fuel: nat,
) -> (SchedView, Seq<SchedulerAction>)
    decreases fuel, 1int, un.len(),
{
    if un.len() == 0 {
        st
    } else {
        let st1 = start_all(g, st, un.drop_last(), fuel);
        if startable(st1.0, un.last()) {
            start_spec(g, st1, un.last(), false, fuel)
        } else {
            st1
        }
    }
}

/// The state has a slot for each of `n` commands, and what it names are
/// commands.
pub open spec fn view_wf(s: SchedView, n: int) -> bool {
    &&& s.statuses.len() == n
    &&& s.pending.len() == n
    &&& s.errors.len() == n
    &&& s.selected.len() == n
    &&& (s.active matches Some(a) ==> 0 <= a < n)
    &&& forall|j: int, k: int|
        0 <= j < n && s.pending[j] is Some && 0 <= k < s.pending[j]->Some_0.len() ==> 0
            <= #[trigger] s.pending[j]->Some_0[k] < n
}

proof fn lemma_unresolved_bounds(s: SchedView, row: Seq<int>, n: int)
    requires
        forall|k: int| 0 <= k < row.len() ==> 0 <= #[trigger] row[k] < n,
    ensures
        forall|k: int|
            0 <= k < unresolved_of(s, row).len() ==> 0 <= #[trigger] unresolved_of(s, row)[k] < n,
        unresolved_of(s, row).len() <= row.len(),
    decreases row.len(),
{
    if row.len() > 0 {
        lemma_unresolved_bounds(s, row.drop_last(), n);
    }
}

/// Starting keeps the state well formed.
pub proof fn lemma_start_wf(
    g: Seq<Seq<int>>,
    st: (SchedView, Seq<SchedulerAction>),
    i: int,
    set_active: bool,
    fuel: nat,
)
    requires
        closed(g),
        view_wf(st.0, g.len() as int),
        0 <= i < g.len(),
    ensures
        view_wf(start_spec(g, st, i, set_active, fuel).0, g.len() as int),
    decreases fuel, 0int, 0int,
{
    let n = g.len() as int;
    let un = unresolved_of(st.0, g[i]);
    lemma_unresolved_bounds(st.0, g[i], n);
    if un.len() > 0 {
        if fuel > 0 {
            lemma_start_all_wf(g, st, un, (fuel - 1) as nat);
        }
    }
}

/// Starting a list of commands keeps the state well formed.
pub proof fn lemma_start_all_wf(
    g: Seq<Seq<int>>,
    st: (SchedView, Seq<SchedulerAction>),
    un: Seq<int>,
    fuel: nat,
)
    requires
        closed(g),
        view_wf(st.0, g.len() as int),
        forall|k: int| 0 <= k < un.len() ==> 0 <= #[trigger] un[k] < g.len(),
    ensures
        view_wf(start_all(g, st, un, fuel).0, g.len() as int),
    decreases fuel, 1int, un.len(),
{
    if un.len() > 0 {
        lemma_start_all_wf(g, st, un.drop_last(), fuel);
        let st1 = start_all(g, st, un.drop_last(), fuel);
        if startable(st1.0, un.last()) {
            lemma_start_wf(g, st1, un.last(), false, fuel);
        }
    }
}

impl Scheduler {
    /// The dependency graph of the commands, by position.
    pub closed spec fn graph(self) -> Seq<Seq<int>> {
        graph_of(self.deps@)
    }

    /// The identifiers of the commands.
    pub closed spec fn ids(self) -> Seq<Seq<char>> {
        strs(self.ids@)
    }

    /// The display names of the commands.
    pub closed spec fn names(self) -> Seq<Seq<char>> {
        strs(self.names@)
    }

    /// The part of the scheduler that changes.
    pub closed spec fn state(self) -> SchedView {
        SchedView {
            statuses: Seq::new(self.statuses@.len(), |i: int| status_view(self.statuses@[i])),
            pending: Seq::new(self.pending@.len(), |i: int| pending_view(self.pending@[i])),
            errors: Seq::new(self.errors@.len(), |i: int| error_view(self.errors@[i])),
            selected: self.selected@,
            active: match self.active {
                Some(a) => Some(a as int),
                None => None,
            },
        }
    }

    /// How many commands the scheduler knows.
    pub open spec fn size(self) -> int {
        self.ids().len() as int
    }

    /// The scheduler is well formed.
    pub open spec fn wf(self) -> bool {
        &&& self.names().len() == self.size()
        &&& self.graph().len() == self.size()
        &&& closed(self.graph())
        &&& view_wf(self.state(), self.size())
    }

    /// Two schedulers over the same commands.
    pub open spec fn same_commands(self, other: Scheduler) -> bool {
        &&& self.ids() == other.ids()
        &&& self.names() == other.names()
        &&& self.graph() == other.graph()
    }

    /// A scheduler for a list of commands: no process exists, nothing waits,
    /// nothing is selected.
    pub fn new(commands: &Vec<&Command>) -> (r: Self)
        ensures
            r.wf(),
            r.ids() == command_ids(refs_view(commands@)),
            r.graph() == link_graph(refs_view(commands@)),
            r.size() == commands@.len(),
            forall|i: int|
                0 <= i < commands@.len() ==> {
                    &&& #[trigger] r.names()[i] == commands@[i]@.name
                    &&& r.state().statuses[i] is None
                    &&& r.state().pending[i] is None
                    &&& r.state().errors[i] is None
                    &&& !r.state().selected[i]
                },
            r.state().active is None,
    {
        let ids = ids_of(commands);
        let deps = dependency_links(commands);
        let mut names: Vec<String> = Vec::new();
        let mut statuses: Vec<Option<CommandStatus>> = Vec::new();
        let mut pending: Vec<Option<Vec<usize>>> = Vec::new();
        let mut errors: Vec<Option<String>> = Vec::new();
        let mut selected: Vec<bool> = Vec::new();
        let mut i: usize = 0;
        while i < commands.len()
            invariant
                i <= commands.len(),
                names@.len() == i,
                statuses@.len() == i,
                pending@.len() == i,
                errors@.len() == i,
                selected@.len() == i,
                forall|j: int| 0 <= j < i ==> #[trigger] names@[j]@ == commands@[j]@.name,
                forall|j: int| 0 <= j < i ==> #[trigger] statuses@[j] is None,
                forall|j: int| 0 <= j < i ==> #[trigger] pending@[j] is None,
                forall|j: int| 0 <= j < i ==> #[trigger] errors@[j] is None,
                forall|j: int| 0 <= j < i ==> !#[trigger] selected@[j],
            decreases commands.len() - i,
        {
            names.push(commands[i].name.clone());
            statuses.push(None);
            pending.push(None);
            errors.push(None);
            selected.push(false);
            i += 1;
        }
        let r = Scheduler { ids, names, deps, statuses, pending, errors, selected, active: None };
        proof {
            let n = commands@.len() as int;
            assert(r.ids().len() == n);
            assert(r.names().len() == n);
            assert(r.graph().len() == n);
            assert(r.state().statuses.len() == n);
            assert(r.state().pending.len() == n);
            assert(r.state().errors.len() == n);
            assert forall|j: int| 0 <= j < n implies r.state().pending[j] is None by {
                assert(r.pending@[j] is None);
            }
            assert(view_wf(r.state(), n));
        }
        r
    }

    /// The position of the command with the identifier `id`.
    pub fn position(&self, id: &str) -> (r: Option<usize>)
        ensures
            match r {
                Some(i) => i == position_of(self.ids(), id@) && i < self.size(),
                None => position_of(self.ids(), id@) >= self.size(),
            },
    {
        let key = String::from_str(id);
        let at = find_text(&self.ids, &key);
        if at < self.ids.len() {
            Some(at)
        } else {
            None
        }
    }

    /// The identifier of the command at position `i`.
    pub fn id_at(&self, i: usize) -> (r: &String)
        requires
            i < self.size(),
        ensures
            r@ == self.ids()[i as int],
    {
        &self.ids[i]
    }

    /// How many commands the scheduler knows.
    pub fn len(&self) -> (r: usize)
        ensures
            r == self.size(),
    {
        self.ids.len()
    }

    fn unresolved(&self, i: usize) -> (r: Vec<usize>)
        requires
            self.wf(),
            i < self.size(),
        ensures
            ints(r@) == unresolved_of(self.state(), self.graph()[i as int]),
    {
        let ghost row = self.graph()[i as int];
        let ghost s = self.state();
        let mut out: Vec<usize> = Vec::new();
        let mut k: usize = 0;
        assert(row.take(0) =~= Seq::<int>::empty());
        assert(ints(out@) =~= unresolved_of(s, row.take(0)));
        while k < self.deps[i].len()
            invariant
                self.wf(),
                i < self.size(),
                k <= self.deps[i as int]@.len(),
                row == self.graph()[i as int],
                s == self.state(),
                ints(out@) == unresolved_of(s, row.take(k as int)),
            decreases self.deps[i as int]@.len() - k,
        {
            let d = self.deps[i][k];
            proof {
                let next = row.take(k + 1);
                assert(next.drop_last() =~= row.take(k as int));
                assert(next.last() == d as int);
                assert(0 <= self.graph()[i as int][k as int] < self.size());
            }
            let done = match &self.statuses[d] {
                Some(CommandStatus::Success) => true,
                _ => false,
            };
            assert(done == satisfied(s, d as int));
            if !done {
                let ghost before = ints(out@);
                out.push(d);
                assert(ints(out@) =~= before.push(d as int));
            }
            k += 1;
        }
        assert(row.take(k as int) =~= row);
        out
    }

    fn is_startable(&self, d: usize) -> (r: bool)
        requires
            self.wf(),
            d < self.size(),
        ensures
            r == startable(self.state(), d as int),
    {
        let running = match &self.statuses[d] {
            Some(CommandStatus::Running) => true,
            _ => false,
        };
        let waiting = match &self.pending[d] {
            Some(_) => true,
            None => false,
        };
        !running && !waiting
    }

    fn start_inner(
        &mut self,
        i: usize,
        set_active: bool,
        fuel: usize,
        actions: &mut Vec<SchedulerAction>,
    )
        requires
            old(self).wf(),
            i < old(self).size(),
        ensures
            final(self).wf(),
            final(self).same_commands(*old(self)),
            (final(self).state(), final(actions)@) == start_spec(
                old(self).graph(),
                (old(self).state(), old(actions)@),
                i as int,
                set_active,
                fuel as nat,
            ),
        decreases fuel,
    {
        let ghost g = self.graph();
        let ghost st0 = (self.state(), actions@);
        let un = self.unresolved(i);
        proof {
            lemma_unresolved_bounds(st0.0, g[i as int], g.len() as int);
            lemma_start_wf(g, st0, i as int, set_active, fuel as nat);
        }
        if un.len() > 0 {
            if fuel > 0 {
                let mut k: usize = 0;
                assert(ints(un@).take(0) =~= Seq::<int>::empty());
                while k < un.len()
                    invariant
                        k <= un.len(),
                        fuel > 0,
                        self.wf(),
                        self.same_commands(*old(self)),
                        g == old(self).graph(),
                        closed(g),
                        view_wf(st0.0, g.len() as int),
                        forall|t: int| 0 <= t < un@.len() ==> 0 <= #[trigger] ints(un@)[t] < g.len(),
                        (self.state(), actions@) == start_all(
                            g,
                            st0,
                            ints(un@).take(k as int),
                            (fuel - 1) as nat,
                        ),
                    decreases un.len() - k,
                {
                    let d = un[k];
                    proof {
                        let next = ints(un@).take(k + 1);
                        assert(next.drop_last() =~= ints(un@).take(k as int));
                        assert(next.last() == d as int);
                        assert(0 <= ints(un@)[k as int] < g.len());
                    }
                    if self.is_startable(d) {
                        self.start_inner(d, false, fuel - 1, actions);
                    }
                    k += 1;
                }
                assert(ints(un@).take(k as int) =~= ints(un@));
            }
            let ghost before = self.state();
            self.pending.set(i, Some(un));
            self.errors.set(i, None);
            if set_active {
                self.active = Some(i);
            }
            proof {
                let want = start_spec(g, st0, i as int, set_active, fuel as nat).0;
                assert(self.state().pending =~= want.pending);
                assert(self.state().statuses =~= want.statuses);
                assert(self.state().errors =~= want.errors);
                assert(self.state() == want);
            }
        } else {
            let had = match &self.statuses[i] {
                Some(_) => true,
                None => false,
            };
            if had {
                actions.push(SchedulerAction::Kill(i));
            }
            actions.push(SchedulerAction::Spawn(i));
            self.statuses.set(i, Some(CommandStatus::Running));
            self.pending.set(i, None);
            self.errors.set(i, None);
            if set_active {
                self.active = Some(i);
            }
            proof {
                let want = start_spec(g, st0, i as int, set_active, fuel as nat);
                assert(self.state().pending =~= want.0.pending);
                assert(self.state().statuses =~= want.0.statuses);
                assert(self.state().errors =~= want.0.errors);
                assert(self.state() == want.0);
                assert(actions@ =~= want.1);
            }
        }
    }

    /// Starts the command at position `i`, checking its dependencies first.
    ///
    /// The result is the list of processes to kill and to spawn, in order.
    /// With `set_active` the terminal pane switches to this command.
    pub fn start(&mut self, i: usize, set_active: bool) -> (r: Vec<SchedulerAction>)
        requires
            old(self).wf(),
            i < old(self).size(),
        ensures
            final(self).wf(),
            final(self).same_commands(*old(self)),
            (final(self).state(), r@) == start_spec(
                old(self).graph(),
                (old(self).state(), Seq::<SchedulerAction>::empty()),
                i as int,
                set_active,
                old(self).size() as nat,
            ),
    {
        let mut actions: Vec<SchedulerAction> = Vec::new();
        let fuel = self.ids.len();
        self.start_inner(i, set_active, fuel, &mut actions);
        actions
    }

    /// Starts the command with the identifier `cmd_id`. An identifier that
    /// names no command changes nothing.
    pub fn start_command(&mut self, cmd_id: &str, set_active: bool) -> (r: Vec<SchedulerAction>)
        requires
            old(self).wf(),
        ensures
            final(self).wf(),
            final(self).same_commands(*old(self)),
            (final(self).state(), r@) == if position_of(old(self).ids(), cmd_id@) < old(
                self,
            ).size() {
                start_spec(
                    old(self).graph(),
                    (old(self).state(), Seq::<SchedulerAction>::empty()),
                    position_of(old(self).ids(), cmd_id@),
                    set_active,
                    old(self).size() as nat,
                )
            } else {
                (old(self).state(), Seq::<SchedulerAction>::empty())
            },
    {
        match self.position(cmd_id) {
            Some(i) => self.start(i, set_active),
            None => Vec::new(),
        }
    }
}

/// The command at `j` waits for the command at `d`.
pub open spec fn waits_on(s: SchedView, j: int, d: int) -> bool {
    s.pending[j] matches Some(list) && list.contains(d)
}

/// The commands below `upto` that wait for the command at `d`, in order.
pub open spec fn waiters(s: SchedView, d: int, upto: int) -> Seq<int>
    decreases upto,
{
    if upto <= 0 {
        Seq::empty()
    } else if waits_on(s, upto - 1, d) {
        waiters(s, d, upto - 1).push(upto - 1)
    } else {
        waiters(s, d, upto - 1)
    }
}

/// The graph of waiting: an edge from each command to the commands that
/// wait for it.
pub open spec fn wait_graph(s: SchedView) -> Seq<Seq<int>> {
    Seq::new(s.pending.len(), |d: int| waiters(s, d, s.pending.len() as int))
}

/// The marks that single out the command at `i`.
pub open spec fn only(n: nat, i: int) -> Seq<bool> {
    Seq::new(n, |a: int| a == i)
}

/// The command at `j` waits for the command at `i`, directly or through
/// other waiting commands.
pub open spec fn doomed(s: SchedView, i: int, j: int) -> bool {
    j != i && reachable(wait_graph(s), only(s.pending.len(), i), j)
}

/// The message for a command whose dependency `name` failed.
pub open spec fn dependency_message(name: Seq<char>) -> Seq<char> {
    "Dependency '"@ + name + "' failed"@
}

/// The message for a command `name` that could not be spawned.
pub open spec fn spawn_message(name: Seq<char>, reason: Seq<char>) -> Seq<char> {
    "Failed to start '"@ + name + "': "@ + reason
}

/// The state after the failure of the command at `i` has spread: every
/// command that waits for it, directly or not, waits no longer and carries
/// the message that its dependency failed.
pub open spec fn after_failure(s: SchedView, i: int, name: Seq<char>) -> SchedView {
    SchedView {
        pending: Seq::new(
            s.pending.len(),
            |j: int|
                if doomed(s, i, j) {
                    None
                } else {
                    s.pending[j]
                },
        ),
        errors: Seq::new(
            s.errors.len(),
            |j: int|
                if doomed(s, i, j) {
                    Some(dependency_message(name))
                } else {
                    s.errors[j]
                },
        ),
        ..s
    }
}

proof fn lemma_waiters(s: SchedView, d: int, upto: int)
    requires
        0 <= upto <= s.pending.len(),
    ensures
        forall|k: int|
            0 <= k < waiters(s, d, upto).len() ==> 0 <= #[trigger] waiters(s, d, upto)[k] < upto
                && waits_on(s, waiters(s, d, upto)[k], d),
        forall|j: int| 0 <= j < upto && waits_on(s, j, d) ==> waiters(s, d, upto).contains(j),
    decreases upto,
{
    if upto > 0 {
        lemma_waiters(s, d, upto - 1);
        let before = waiters(s, d, upto - 1);
        let now = waiters(s, d, upto);
        assert forall|j: int| 0 <= j < upto && waits_on(s, j, d) implies now.contains(j) by {
            if j < upto - 1 {
                assert(before.contains(j));
                let t = choose|t: int| 0 <= t < before.len() && before[t] == j;
                assert(now[t] == j);
            } else {
                assert(now[now.len() - 1] == j);
            }
        }
    }
}

/// A command that waits for a failed command is doomed.
pub proof fn lemma_direct_waiter_doomed(s: SchedView, i: int, j: int)
    requires
        0 <= i < s.pending.len(),
        0 <= j < s.pending.len(),
        j != i,
        waits_on(s, j, i),
    ensures
        doomed(s, i, j),
{
    let g = wait_graph(s);
    lemma_waiters(s, i, s.pending.len() as int);
    let walk = seq![i, j];
    assert(g[i].contains(j));
    let k = choose|k: int| 0 <= k < g[i].len() && g[i][k] == j;
    assert(crate::graph::has_edge(g, walk[0], walk[1]));
    assert(crate::graph::is_walk(g, walk) && only(s.pending.len(), i)[walk[0]] && walk.last()
        == j);
}

/// A command that waits for a doomed command is doomed too: failure spreads
/// along every chain of waiting commands.
pub proof fn lemma_waiter_of_doomed(s: SchedView, i: int, d: int, j: int)
    requires
        0 <= i < s.pending.len(),
        0 <= d < s.pending.len(),
        0 <= j < s.pending.len(),
        j != i,
        doomed(s, i, d),
        waits_on(s, j, d),
    ensures
        doomed(s, i, j),
{
    let g = wait_graph(s);
    lemma_waiters(s, d, s.pending.len() as int);
    let walk = choose|walk: Seq<int>|
        #[trigger] crate::graph::is_walk(g, walk) && only(s.pending.len(), i)[walk[0]]
            && walk.last() == d;
    let longer = walk.push(j);
    assert(g[d].contains(j));
    let k = choose|k: int| 0 <= k < g[d].len() && g[d][k] == j;
    assert(crate::graph::has_edge(g, d, j));
    assert forall|t: int| 0 <= t < longer.len() - 1 implies crate::graph::has_edge(
        g,
        #[trigger] longer[t],
        longer[t + 1],
    ) by {
        if t < walk.len() - 1 {
            assert(crate::graph::has_edge(g, walk[t], walk[t + 1]));
        }
    }
    assert(crate::graph::is_walk(g, longer) && only(s.pending.len(), i)[longer[0]]
        && longer.last() == j);
}

/// `list` without the position `i`.
pub open spec fn without(list: Seq<int>, i: int) -> Seq<int>
    decreases list.len(),
{
    if list.len() == 0 {
        Seq::empty()
    } else if list.last() == i {
        without(list.drop_last(), i)
    } else {
        without(list.drop_last(), i).push(list.last())
    }
}

/// The state once nobody waits for the command at `i` any more: `i` is
/// taken off every list of awaited dependencies.
pub open spec fn released(s: SchedView, i: int) -> SchedView {
    SchedView {
        pending: Seq::new(
            s.pending.len(),
            |j: int|
                match s.pending[j] {
                    Some(list) => Some(without(list, i)),
                    None => None,
                },
        ),
        ..s
    }
}

/// The commands below `upto` that wait for nothing any more, in order.
pub open spec fn ready_upto(s: SchedView, upto: int) -> Seq<int>
    decreases upto,
{
    if upto <= 0 {
        Seq::empty()
    } else if s.pending[upto - 1] matches Some(list) && list.len() == 0 {
        ready_upto(s, upto - 1).push(upto - 1)
    } else {
        ready_upto(s, upto - 1)
    }
}

/// The state and the actions after each command of `ready`, in order, was
/// taken off the waiting list and started in the background.
pub open spec fn start_ready(
    g: Seq<Seq<int>>,
    st: (SchedView, Seq<SchedulerAction>),
    ready: Seq<int>,
    fuel: nat,
) -> (SchedView, Seq<SchedulerAction>)
    decreases ready.len(),
{
    if ready.len() == 0 {
        st
    } else {
        let st1 = start_ready(g, st, ready.drop_last(), fuel);
        let j = ready.last();
        start_spec(
            g,
            (SchedView { pending: st1.0.pending.update(j, None), ..st1.0 }, st1.1),
            j,
            false,
            fuel,
        )
    }
}

/// The status of a process that has exited with `code`.
pub open spec fn exit_status(code: u32) -> StatusView {
    if code == 0 {
        StatusView::Success
    } else {
        StatusView::Failure(code)
    }
}

/// The statuses after the process of the command at `i`, where it has one,
/// got the status `status`.
pub open spec fn with_status(s: SchedView, i: int, status: StatusView) -> SchedView {
    if s.statuses[i] is Some {
        SchedView { statuses: s.statuses.update(i, Some(status)), ..s }
    } else {
        s
    }
}

/// The state and the actions after the process of the command at `i` has
/// exited with `code`.
///
/// On success the command is deselected, taken off every list of awaited
/// dependencies, and the commands that wait for nothing any more are
/// started. On failure every command that waited for it, directly or not,
/// is marked with an error.
pub open spec fn exited_spec(g: Seq<Seq<int>>, names: Seq<Seq<char>>, s: SchedView, i: int, code: u32) -> (
    SchedView,
    Seq<SchedulerAction>,
) {
    let s1 = with_status(s, i, exit_status(code));
    if code == 0 {
        let s2 = released(SchedView { selected: s1.selected.update(i, false), ..s1 }, i);
        start_ready(
            g,
            (s2, Seq::empty()),
            ready_upto(s2, s2.pending.len() as int),
            g.len(),
        )
    } else {
        (after_failure(s1, i, names[i]), Seq::empty())
    }
}

/// The state after the process of the command at `i` broke with `message`.
pub open spec fn errored_spec(names: Seq<Seq<char>>, s: SchedView, i: int, message: Seq<char>) -> SchedView {
    let s1 = with_status(s, i, StatusView::Error(message));
    after_failure(SchedView { errors: s1.errors.update(i, Some(message)), ..s1 }, i, names[i])
}

/// The status that the interface shows for a command: its error where one
/// is recorded, else the status of its process, else that it waits for
/// dependencies, else that nothing has happened yet.
pub open spec fn shown_status(s: SchedView, i: int) -> StatusView {
    match s.errors[i] {
        Some(m) => StatusView::Error(m),
        None => match s.statuses[i] {
            Some(status) => status,
            None => if s.pending[i] is Some {
                StatusView::WaitingForDeps
            } else {
                StatusView::Pending
            },
        },
    }
}

/// [`after_failure`], applied to the commands below `upto` only.
spec fn failure_upto(s: SchedView, i: int, name: Seq<char>, upto: int) -> SchedView {
    SchedView {
        pending: Seq::new(
            s.pending.len(),
            |j: int|
                if j < upto && doomed(s, i, j) {
                    None
                } else {
                    s.pending[j]
                },
        ),
        errors: Seq::new(
            s.errors.len(),
            |j: int|
                if j < upto && doomed(s, i, j) {
                    Some(dependency_message(name))
                } else {
                    s.errors[j]
                },
        ),
        ..s
    }
}

/// [`released`], applied to the commands below `upto` only.
spec fn released_upto(s: SchedView, i: int, upto: int) -> SchedView {
    SchedView {
        pending: Seq::new(
            s.pending.len(),
            |j: int|
                if j < upto {
                    match s.pending[j] {
                        Some(list) => Some(without(list, i)),
                        None => None,
                    }
                } else {
                    s.pending[j]
                },
        ),
        ..s
    }
}

proof fn lemma_without_bounds(list: Seq<int>, i: int, n: int)
    requires
        forall|k: int| 0 <= k < list.len() ==> 0 <= #[trigger] list[k] < n,
    ensures
        forall|k: int| 0 <= k < without(list, i).len() ==> 0 <= #[trigger] without(list, i)[k] < n,
    decreases list.len(),
{
    if list.len() > 0 {
        let init = list.drop_last();
        assert forall|k: int| 0 <= k < init.len() implies 0 <= #[trigger] init[k] < n by {
            assert(init[k] == list[k]);
        }
        lemma_without_bounds(init, i, n);
        assert(0 <= list[list.len() - 1] < n);
        let now = without(list, i);
        let before = without(init, i);
        assert forall|k: int| 0 <= k < now.len() implies 0 <= #[trigger] now[k] < n by {
            if k < before.len() {
                assert(now[k] == before[k]);
            }
        }
    }
}

proof fn lemma_ready_bounds(s: SchedView, upto: int)
    requires
        0 <= upto <= s.pending.len(),
    ensures
        forall|k: int| 0 <= k < ready_upto(s, upto).len() ==> 0 <= #[trigger] ready_upto(s, upto)[k]
            < upto,
    decreases upto,
{
    if upto > 0 {
        lemma_ready_bounds(s, upto - 1);
        let now = ready_upto(s, upto);
        let before = ready_upto(s, upto - 1);
        assert forall|k: int| 0 <= k < now.len() implies 0 <= #[trigger] now[k] < upto by {
            if k < before.len() {
                assert(now[k] == before[k]);
            }
        }
    }
}

impl Scheduler {
    fn wait_rows(&self) -> (r: Vec<Vec<usize>>)
        requires
            self.wf(),
        ensures
            graph_of(r@) == wait_graph(self.state()),
            closed(graph_of(r@)),
            r@.len() == self.size(),
    {
        let ghost s = self.state();
        let n = self.ids.len();
        let mut rows: Vec<Vec<usize>> = Vec::new();
        let mut d: usize = 0;
        while d < n
            invariant
                d <= n,
                n == self.size(),
                self.wf(),
                s == self.state(),
                rows@.len() == d,
                forall|a: int| 0 <= a < d ==> ints(#[trigger] rows@[a]@) == waiters(s, a, n as int),
            decreases n - d,
        {
            let mut row: Vec<usize> = Vec::new();
            let mut j: usize = 0;
            assert(ints(row@) =~= waiters(s, d as int, 0));
            while j < n
                invariant
                    j <= n,
                    d < n,
                    n == self.size(),
                    self.wf(),
                    s == self.state(),
                    ints(row@) == waiters(s, d as int, j as int),
                decreases n - j,
            {
                let waits = match &self.pending[j] {
                    Some(list) => {
                        let mut found = false;
                        let mut k: usize = 0;
                        while k < list.len()
                            invariant
                                k <= list.len(),
                                found == ints(list@).take(k as int).contains(d as int),
                            decreases list.len() - k,
                        {
                            let ghost part = ints(list@).take(k as int);
                            let ghost next = ints(list@).take(k + 1);
                            if list[k] == d {
                                found = true;
                                assert(next[k as int] == d as int);
                            } else {
                                proof {
                                    if next.contains(d as int) {
                                        let t = choose|t: int|
                                            0 <= t < next.len() && next[t] == d as int;
                                        assert(part[t] == d as int);
                                    }
                                    if part.contains(d as int) {
                                        let t = choose|t: int|
                                            0 <= t < part.len() && part[t] == d as int;
                                        assert(next[t] == d as int);
                                    }
                                }
                            }
                            k += 1;
                        }
                        assert(ints(list@).take(k as int) =~= ints(list@));
                        found
                    },
                    None => false,
                };
                assert(waits == waits_on(s, j as int, d as int)) by {
                    assert(s.pending[j as int] == pending_view(self.pending@[j as int]));
                }
                if waits {
                    let ghost before = ints(row@);
                    row.push(j);
                    assert(ints(row@) =~= before.push(j as int));
                }
                j += 1;
            }
            rows.push(row);
            d += 1;
        }
        proof {
            assert(graph_of(rows@) =~= wait_graph(s)) by {
                assert forall|a: int| 0 <= a < n implies graph_of(rows@)[a] =~= wait_graph(s)[a] by {
                    assert(ints(rows@[a]@) == waiters(s, a, n as int));
                }
            }
            assert forall|a: int, k: int|
                0 <= a < n && 0 <= k < graph_of(rows@)[a].len() implies 0 <= #[trigger] graph_of(
                rows@,
            )[a][k] < n by {
                lemma_waiters(s, a, n as int);
            }
        }
        rows
    }

    fn fail_dependents(&mut self, i: usize)
        requires
            old(self).wf(),
            i < old(self).size(),
        ensures
            final(self).wf(),
            final(self).same_commands(*old(self)),
            final(self).state() == after_failure(
                old(self).state(),
                i as int,
                old(self).names()[i as int],
            ),
    {
        let ghost s = self.state();
        let n = self.ids.len();
        let rows = self.wait_rows();
        let mut starts: Vec<bool> = Vec::new();
        let mut a: usize = 0;
        while a < n
            invariant
                a <= n,
                starts@.len() == a,
                forall|b: int| 0 <= b < a ==> starts@[b] == (b == i),
            decreases n - a,
        {
            starts.push(a == i);
            a += 1;
        }
        assert(starts@ =~= only(n as nat, i as int));
        let marks = reach(&rows, &starts);
        let message = concat3("Dependency '", self.names[i].as_str(), "' failed");
        let ghost name = self.names()[i as int];
        let mut j: usize = 0;
        proof {
            let start = failure_upto(s, i as int, name, 0);
            assert(start.pending =~= s.pending);
            assert(start.errors =~= s.errors);
        }
        while j < n
            invariant
                j <= n,
                n == self.size(),
                i < n,
                self.wf(),
                self.same_commands(*old(self)),
                s == old(self).state(),
                view_wf(s, n as int),
                name == old(self).names()[i as int],
                message@ == dependency_message(name),
                marks@.len() == n,
                forall|v: int|
                    0 <= v < n ==> (#[trigger] marks@[v]) == reachable(
                        wait_graph(s),
                        only(n as nat, i as int),
                        v,
                    ),
                self.state() == failure_upto(s, i as int, name, j as int),
            decreases n - j,
        {
            let ghost before = self.state();
            assert(marks@[j as int] == reachable(wait_graph(s), only(n as nat, i as int), j as int));
            if marks[j] && j != i {
                assert(doomed(s, i as int, j as int));
                self.set_pending(j, None);
                self.set_error(j, Some(message.clone()));
            } else {
                assert(!doomed(s, i as int, j as int));
            }
            proof {
                let want = failure_upto(s, i as int, name, j + 1);
                assert(self.state().pending =~= want.pending);
                assert(self.state().errors =~= want.errors);
                assert(self.state() == want);
            }
            j += 1;
        }
        proof {
            let want = after_failure(s, i as int, name);
            assert(self.state().pending =~= want.pending);
            assert(self.state().errors =~= want.errors);
        }
    }

    fn set_pending(&mut self, j: usize, value: Option<Vec<usize>>)
        requires
            old(self).wf(),
            j < old(self).size(),
            value matches Some(list) ==> forall|k: int|
                0 <= k < list@.len() ==> 0 <= #[trigger] ints(list@)[k] < old(self).size(),
        ensures
            final(self).wf(),
            final(self).same_commands(*old(self)),
            final(self).state() == (SchedView {
                pending: old(self).state().pending.update(j as int, pending_view(value)),
                ..old(self).state()
            }),
    {
        let ghost before = self.state();
        let ghost shown = pending_view(value);
        self.pending.set(j, value);
        proof {
            let want = SchedView { pending: before.pending.update(j as int, shown), ..before };
            assert(self.state().statuses =~= want.statuses);
            assert(self.state().pending =~= want.pending);
            assert(self.state().errors =~= want.errors);
            assert(self.state() == want);
            assert forall|a: int, k: int|
                0 <= a < self.size() && want.pending[a] is Some && 0 <= k
                    < want.pending[a]->Some_0.len() implies 0 <= #[trigger] want.pending[a]->Some_0[k]
                < self.size() by {
                if a != j as int {
                    assert(want.pending[a] == before.pending[a]);
                    assert(0 <= before.pending[a]->Some_0[k] < self.size());
                }
            }
        }
    }

    fn set_error(&mut self, j: usize, value: Option<String>)
        requires
            old(self).wf(),
            j < old(self).size(),
        ensures
            final(self).wf(),
            final(self).same_commands(*old(self)),
            final(self).state() == (SchedView {
                errors: old(self).state().errors.update(j as int, error_view(value)),
                ..old(self).state()
            }),
    {
        let ghost before = self.state();
        let ghost shown = error_view(value);
        self.errors.set(j, value);
        proof {
            let want = SchedView { errors: before.errors.update(j as int, shown), ..before };
            assert(self.state().statuses =~= want.statuses);
            assert(self.state().pending =~= want.pending);
            assert(self.state().errors =~= want.errors);
            assert(self.state() == want);
        }
    }

    fn set_selected(&mut self, j: usize, value: bool)
        requires
            old(self).wf(),
            j < old(self).size(),
        ensures
            final(self).wf(),
            final(self).same_commands(*old(self)),
            final(self).state() == (SchedView {
                selected: old(self).state().selected.update(j as int, value),
                ..old(self).state()
            }),
    {
        let ghost before = self.state();
        self.selected.set(j, value);
        proof {
            let want = SchedView { selected: before.selected.update(j as int, value), ..before };
            assert(self.state().statuses =~= want.statuses);
            assert(self.state().pending =~= want.pending);
            assert(self.state().errors =~= want.errors);
            assert(self.state() == want);
        }
    }

    fn set_status(&mut self, i: usize, status: CommandStatus)
        requires
            old(self).wf(),
            i < old(self).size(),
        ensures
            final(self).wf(),
            final(self).same_commands(*old(self)),
            final(self).state() == with_status(old(self).state(), i as int, status@),
    {
        let has = match &self.statuses[i] {
            Some(_) => true,
            None => false,
        };
        if has {
            self.statuses.set(i, Some(status));
            proof {
                let want = with_status(old(self).state(), i as int, status@);
                assert(self.state().statuses =~= want.statuses);
                assert(self.state().pending =~= want.pending);
                assert(self.state().errors =~= want.errors);
            }
        }
    }

    fn release(&mut self, i: usize)
        requires
            old(self).wf(),
            i < old(self).size(),
        ensures
            final(self).wf(),
            final(self).same_commands(*old(self)),
            final(self).state() == released(old(self).state(), i as int),
    {
        let ghost s = self.state();
        let n = self.ids.len();
        let mut j: usize = 0;
        proof {
            assert(released_upto(s, i as int, 0).pending =~= s.pending);
        }
        while j < n
            invariant
                j <= n,
                n == self.size(),
                self.wf(),
                self.same_commands(*old(self)),
                s == old(self).state(),
                view_wf(s, n as int),
                self.state() == released_upto(s, i as int, j as int),
            decreases n - j,
        {
            let next: Option<Vec<usize>> = match &self.pending[j] {
                Some(list) => {
                    let mut kept: Vec<usize> = Vec::new();
                    let mut k: usize = 0;
                    assert(ints(list@).take(0) =~= Seq::<int>::empty());
                    assert(ints(kept@) =~= without(ints(list@).take(0), i as int));
                    while k < list.len()
                        invariant
                            k <= list.len(),
                            ints(kept@) == without(ints(list@).take(k as int), i as int),
                        decreases list.len() - k,
                    {
                        proof {
                            let next = ints(list@).take(k + 1);
                            assert(next.drop_last() =~= ints(list@).take(k as int));
                            assert(next.last() == list@[k as int] as int);
                        }
                        if list[k] != i {
                            let ghost before = ints(kept@);
                            kept.push(list[k]);
                            assert(ints(kept@) =~= before.push(list@[k as int] as int));
                        }
                        k += 1;
                    }
                    assert(ints(list@).take(k as int) =~= ints(list@));
                    Some(kept)
                },
                None => None,
            };
            proof {
                assert(self.state().pending[j as int] == s.pending[j as int]);
                assert(self.state().pending[j as int] == pending_view(self.pending@[j as int]));
                if s.pending[j as int] is Some {
                    let list = s.pending[j as int]->Some_0;
                    assert forall|k: int| 0 <= k < list.len() implies 0 <= #[trigger] list[k]
                        < n by {
                        assert(0 <= s.pending[j as int]->Some_0[k] < n);
                    }
                    lemma_without_bounds(list, i as int, n as int);
                }
            }
            self.set_pending(j, next);
            proof {
                let want = released_upto(s, i as int, j + 1);
                assert(self.state().pending =~= want.pending);
                assert(self.state() == want);
            }
            j += 1;
        }
        proof {
            assert(self.state().pending =~= released(s, i as int).pending);
        }
    }

    fn ready(&self) -> (r: Vec<usize>)
        requires
            self.wf(),
        ensures
            ints(r@) == ready_upto(self.state(), self.size()),
    {
        let ghost s = self.state();
        let mut out: Vec<usize> = Vec::new();
        let mut j: usize = 0;
        assert(ints(out@) =~= ready_upto(s, 0));
        while j < self.pending.len()
            invariant
                j <= self.pending.len(),
                self.wf(),
                s == self.state(),
                ints(out@) == ready_upto(s, j as int),
            decreases self.pending.len() - j,
        {
            let is_ready = match &self.pending[j] {
                Some(list) => list.len() == 0,
                None => false,
            };
            assert(s.pending[j as int] == pending_view(self.pending@[j as int]));
            if is_ready {
                let ghost before = ints(out@);
                out.push(j);
                assert(ints(out@) =~= before.push(j as int));
            }
            j += 1;
        }
        out
    }

    /// Takes note that the process of the command at `i` has exited with
    /// `code`, and gives the processes to kill and to spawn in return.
    pub fn process_exited(&mut self, i: usize, code: u32) -> (r: Vec<SchedulerAction>)
        requires
            old(self).wf(),
            i < old(self).size(),
        ensures
            final(self).wf(),
            final(self).same_commands(*old(self)),
            (final(self).state(), r@) == exited_spec(
                old(self).graph(),
                old(self).names(),
                old(self).state(),
                i as int,
                code,
            ),
    {
        let ghost g = self.graph();
        let mut actions: Vec<SchedulerAction> = Vec::new();
        if code == 0 {
            self.set_status(i, CommandStatus::Success);
            self.set_selected(i, false);
            self.release(i);
            let ghost s2 = self.state();
            let ready = self.ready();
            let fuel = self.ids.len();
            proof {
                lemma_ready_bounds(s2, s2.pending.len() as int);
            }
            let mut k: usize = 0;
            assert(ints(ready@).take(0) =~= Seq::<int>::empty());
            while k < ready.len()
                invariant
                    k <= ready.len(),
                    self.wf(),
                    self.same_commands(*old(self)),
                    g == old(self).graph(),
                    fuel == self.size(),
                    forall|t: int| 0 <= t < ready@.len() ==> 0 <= #[trigger] ints(ready@)[t] < g.len(),
                    (self.state(), actions@) == start_ready(
                        g,
                        (s2, Seq::<SchedulerAction>::empty()),
                        ints(ready@).take(k as int),
                        fuel as nat,
                    ),
                decreases ready.len() - k,
            {
                let j = ready[k];
                proof {
                    let next = ints(ready@).take(k + 1);
                    assert(next.drop_last() =~= ints(ready@).take(k as int));
                    assert(next.last() == j as int);
                    assert(0 <= ints(ready@)[k as int] < g.len());
                }
                self.set_pending(j, None);
                self.start_inner(j, false, fuel, &mut actions);
                k += 1;
            }
            assert(ints(ready@).take(k as int) =~= ints(ready@));
        } else {
            self.set_status(i, CommandStatus::Failure(code));
            self.fail_dependents(i);
        }
        actions
    }

    /// Takes note that the process of the command at `i` broke with
    /// `message`: the message is recorded, and every command that waited for
    /// this one is marked with an error.
    pub fn process_error(&mut self, i: usize, message: String)
        requires
            old(self).wf(),
            i < old(self).size(),
        ensures
            final(self).wf(),
            final(self).same_commands(*old(self)),
            final(self).state() == errored_spec(
                old(self).names(),
                old(self).state(),
                i as int,
                message@,
            ),
    {
        self.set_status(i, CommandStatus::Error(message.clone()));
        self.set_error(i, Some(message));
        self.fail_dependents(i);
    }
}

/// The state after the spawn of the command at `i` has failed for
/// `reason`: no process exists for it, and the failure is recorded.
pub open spec fn spawn_failed_spec(
    names: Seq<Seq<char>>,
    s: SchedView,
    i: int,
    reason: Seq<char>,
) -> SchedView {
    SchedView {
        statuses: s.statuses.update(i, None),
        errors: s.errors.update(i, Some(spawn_message(names[i], reason))),
        ..s
    }
}

/// The state without the process instance of the command at `i`.
pub open spec fn without_process(s: SchedView, i: int) -> SchedView {
    SchedView { statuses: s.statuses.update(i, None), ..s }
}

/// The state after the command at `i` was cleared away: it has no process
/// instance, and no error of an earlier run is left on it.
pub open spec fn cleared(s: SchedView, i: int) -> SchedView {
    SchedView { statuses: s.statuses.update(i, None), errors: s.errors.update(i, None), ..s }
}

/// The state and the actions after starting each command of `list` in
/// order; with `first_active`, the first one becomes the active terminal.
pub open spec fn start_list(
    g: Seq<Seq<int>>,
    st: (SchedView, Seq<SchedulerAction>),
    list: Seq<int>,
    first_active: bool,
    fuel: nat,
) -> (SchedView, Seq<SchedulerAction>)
    decreases list.len(),
{
    if list.len() == 0 {
        st
    } else {
        start_spec(
            g,
            start_list(g, st, list.drop_last(), first_active, fuel),
            list.last(),
            first_active && list.len() == 1,
            fuel,
        )
    }
}

/// The selected commands below `upto`, in order.
pub open spec fn selected_upto(s: SchedView, upto: int) -> Seq<int>
    decreases upto,
{
    if upto <= 0 {
        Seq::empty()
    } else if s.selected[upto - 1] {
        selected_upto(s, upto - 1).push(upto - 1)
    } else {
        selected_upto(s, upto - 1)
    }
}

/// The commands with a process below `upto`, in order, each as a kill.
pub open spec fn kills_upto(s: SchedView, upto: int) -> Seq<SchedulerAction>
    decreases upto,
{
    if upto <= 0 {
        Seq::empty()
    } else if s.statuses[upto - 1] is Some {
        kills_upto(s, upto - 1).push(SchedulerAction::Kill((upto - 1) as usize))
    } else {
        kills_upto(s, upto - 1)
    }
}

/// A start that switches the terminal pane leaves it on a command that has
/// a process instance or waits for its dependencies.
pub proof fn lemma_started_is_shown(
    g: Seq<Seq<int>>,
    st: (SchedView, Seq<SchedulerAction>),
    i: int,
    fuel: nat,
)
    requires
        closed(g),
        view_wf(st.0, g.len() as int),
        0 <= i < g.len(),
    ensures
        start_spec(g, st, i, true, fuel).0.active == Some(i),
        start_spec(g, st, i, true, fuel).0.statuses[i] is Some || start_spec(
            g,
            st,
            i,
            true,
            fuel,
        ).0.pending[i] is Some,
{
    let un = unresolved_of(st.0, g[i]);
    lemma_unresolved_bounds(st.0, g[i], g.len() as int);
    if un.len() > 0 && fuel > 0 {
        lemma_start_all_wf(g, st, un, (fuel - 1) as nat);
    }
}

/// The states agree on everything but the process instance and the error
/// of the command at `i`.
pub open spec fn same_but_run(a: SchedView, b: SchedView, i: int) -> bool {
    &&& a.statuses.len() == b.statuses.len()
    &&& a.errors.len() == b.errors.len()
    &&& forall|j: int| 0 <= j < a.statuses.len() && j != i ==> a.statuses[j] == b.statuses[j]
    &&& forall|j: int| 0 <= j < a.errors.len() && j != i ==> a.errors[j] == b.errors[j]
    &&& a.pending == b.pending
    &&& a.selected == b.selected
    &&& a.active == b.active
}

/// Clearing a command and starting it again is starting it afresh.
/// Whatever became of its earlier run, exit or error, the start after a
/// clear gives the state and the actions that it gives where the command
/// never ran: no status and no error of the earlier run is left, and a
/// command that waits for nothing is running.
pub proof fn lemma_restart_like_fresh(
    g: Seq<Seq<int>>,
    s: SchedView,
    fresh: SchedView,
    i: int,
    set_active: bool,
    fuel: nat,
)
    requires
        closed(g),
        view_wf(s, g.len() as int),
        0 <= i < g.len(),
        same_but_run(s, fresh, i),
        fresh.statuses[i] is None,
        fresh.errors[i] is None,
    ensures
        start_spec(g, (cleared(s, i), Seq::empty()), i, set_active, fuel) == start_spec(
            g,
            (fresh, Seq::empty()),
            i,
            set_active,
            fuel,
        ),
        shown_status(cleared(s, i), i) == shown_status(fresh, i),
        start_spec(g, (cleared(s, i), Seq::empty()), i, set_active, fuel).0.errors[i] is None,
        unresolved_of(fresh, g[i]).len() == 0 ==> shown_status(
            start_spec(g, (cleared(s, i), Seq::empty()), i, set_active, fuel).0,
            i,
        ) == StatusView::Running,
{
    assert(cleared(s, i).statuses =~= fresh.statuses);
    assert(cleared(s, i).errors =~= fresh.errors);
    assert(cleared(s, i) == fresh);
    assert(view_wf(fresh, g.len() as int));
    let un = unresolved_of(fresh, g[i]);
    lemma_unresolved_bounds(fresh, g[i], g.len() as int);
    if un.len() > 0 && fuel > 0 {
        lemma_start_all_wf(g, (fresh, Seq::empty()), un, (fuel - 1) as nat);
    }
}

/// When a command fails, no command that waited for it, directly or not,
/// waits any longer or is started: each carries the error instead.
pub proof fn lemma_failure_marks_dependents(
    g: Seq<Seq<int>>,
    names: Seq<Seq<char>>,
    s: SchedView,
    i: int,
    code: u32,
    j: int,
)
    requires
        code != 0,
        0 <= i < s.pending.len(),
        0 <= j < s.pending.len(),
        s.errors.len() == s.pending.len(),
        s.statuses.len() == s.pending.len(),
        doomed(s, i, j),
    ensures
        exited_spec(g, names, s, i, code).1 == Seq::<SchedulerAction>::empty(),
        exited_spec(g, names, s, i, code).0.pending[j] is None,
        exited_spec(g, names, s, i, code).0.errors[j] == Some(dependency_message(names[i])),
        shown_status(exited_spec(g, names, s, i, code).0, j) == StatusView::Error(
            dependency_message(names[i]),
        ),
{
    let s1 = with_status(s, i, exit_status(code));
    assert(s1.pending == s.pending);
    assert(wait_graph(s1) =~= wait_graph(s)) by {
        assert forall|d: int| 0 <= d < s.pending.len() implies wait_graph(s1)[d] == wait_graph(
            s,
        )[d] by {
            lemma_waiters_same(s1, s, d, s.pending.len() as int);
        }
    }
    assert(doomed(s1, i, j));
}

proof fn lemma_waiters_same(a: SchedView, b: SchedView, d: int, upto: int)
    requires
        a.pending == b.pending,
    ensures
        waiters(a, d, upto) == waiters(b, d, upto),
    decreases upto,
{
    if upto > 0 {
        lemma_waiters_same(a, b, d, upto - 1);
    }
}

impl Scheduler {
    /// Takes note that the spawn of the command at `i` has failed: its
    /// process instance goes, and the failure is recorded as its error.
    pub fn spawn_failed(&mut self, i: usize, reason: &str)
        requires
            old(self).wf(),
            i < old(self).size(),
        ensures
            final(self).wf(),
            final(self).same_commands(*old(self)),
            final(self).state() == spawn_failed_spec(
                old(self).names(),
                old(self).state(),
                i as int,
                reason@,
            ),
    {
        let message = concat4("Failed to start '", self.names[i].as_str(), "': ", reason);
        self.drop_process(i);
        self.set_error(i, Some(message));
    }

    fn drop_process(&mut self, i: usize)
        requires
            old(self).wf(),
            i < old(self).size(),
        ensures
            final(self).wf(),
            final(self).same_commands(*old(self)),
            final(self).state() == without_process(old(self).state(), i as int),
    {
        let ghost before = self.state();
        self.statuses.set(i, None);
        proof {
            let want = without_process(before, i as int);
            assert(self.state().statuses =~= want.statuses);
            assert(self.state().pending =~= want.pending);
            assert(self.state().errors =~= want.errors);
            assert(self.state() == want);
        }
    }

    fn has_process(&self, i: usize) -> (r: bool)
        requires
            self.wf(),
            i < self.size(),
        ensures
            r == (self.state().statuses[i as int] is Some),
    {
        match &self.statuses[i] {
            Some(_) => true,
            None => false,
        }
    }

    /// Stops the command at `i`: its process is to be killed where it has
    /// one. The state does not change until the process reports its exit.
    pub fn stop(&self, i: usize) -> (r: Option<SchedulerAction>)
        requires
            self.wf(),
            i < self.size(),
        ensures
            r == if self.state().statuses[i as int] is Some {
                Some(SchedulerAction::Kill(i))
            } else {
                None
            },
    {
        if self.has_process(i) {
            Some(SchedulerAction::Kill(i))
        } else {
            None
        }
    }

    /// Clears the command at `i`: its process instance is removed with the
    /// error that it may have left, and its terminal is to be cleared and
    /// its tasks aborted where it had one.
    pub fn clear(&mut self, i: usize) -> (r: Option<SchedulerAction>)
        requires
            old(self).wf(),
            i < old(self).size(),
        ensures
            final(self).wf(),
            final(self).same_commands(*old(self)),
            final(self).state() == cleared(old(self).state(), i as int),
            r == if old(self).state().statuses[i as int] is Some {
                Some(SchedulerAction::Clear(i))
            } else {
                None
            },
    {
        let had = self.has_process(i);
        self.drop_process(i);
        self.set_error(i, None);
        if had {
            Some(SchedulerAction::Clear(i))
        } else {
            None
        }
    }

    /// Starts each command of `list` in order. With `first_active` the
    /// terminal pane switches to the first of them.
    pub fn start_each(&mut self, list: &Vec<usize>, first_active: bool) -> (r: Vec<SchedulerAction>)
        requires
            old(self).wf(),
            forall|k: int| 0 <= k < list@.len() ==> #[trigger] list@[k] < old(self).size(),
        ensures
            final(self).wf(),
            final(self).same_commands(*old(self)),
            (final(self).state(), r@) == start_list(
                old(self).graph(),
                (old(self).state(), Seq::<SchedulerAction>::empty()),
                ints(list@),
                first_active,
                old(self).size() as nat,
            ),
    {
        let ghost g = self.graph();
        let ghost st0 = (self.state(), Seq::<SchedulerAction>::empty());
        let fuel = self.ids.len();
        let mut actions: Vec<SchedulerAction> = Vec::new();
        let mut k: usize = 0;
        assert(ints(list@).take(0) =~= Seq::<int>::empty());
        while k < list.len()
            invariant
                k <= list.len(),
                self.wf(),
                self.same_commands(*old(self)),
                g == old(self).graph(),
                fuel == self.size(),
                forall|t: int| 0 <= t < list@.len() ==> #[trigger] list@[t] < self.size(),
                (self.state(), actions@) == start_list(
                    g,
                    st0,
                    ints(list@).take(k as int),
                    first_active,
                    fuel as nat,
                ),
            decreases list.len() - k,
        {
            proof {
                let next = ints(list@).take(k + 1);
                assert(next.drop_last() =~= ints(list@).take(k as int));
                assert(next.last() == list@[k as int] as int);
            }
            self.start_inner(list[k], first_active && k == 0, fuel, &mut actions);
            k += 1;
        }
        assert(ints(list@).take(k as int) =~= ints(list@));
        actions
    }

    /// The positions of the selected commands, in order.
    pub fn selected_positions(&self) -> (r: Vec<usize>)
        requires
            self.wf(),
        ensures
            ints(r@) == selected_upto(self.state(), self.size()),
            forall|k: int| 0 <= k < r@.len() ==> #[trigger] r@[k] < self.size(),
    {
        let ghost s = self.state();
        let mut out: Vec<usize> = Vec::new();
        let mut j: usize = 0;
        assert(ints(out@) =~= selected_upto(s, 0));
        while j < self.selected.len()
            invariant
                j <= self.selected.len(),
                self.wf(),
                s == self.state(),
                ints(out@) == selected_upto(s, j as int),
                forall|k: int| 0 <= k < out@.len() ==> #[trigger] out@[k] < j,
            decreases self.selected.len() - j,
        {
            if self.selected[j] {
                let ghost before = ints(out@);
                out.push(j);
                assert(ints(out@) =~= before.push(j as int));
            }
            j += 1;
        }
        out
    }

    /// Starts every selected command in the background, in order.
    pub fn run_selected(&mut self) -> (r: Vec<SchedulerAction>)
        requires
            old(self).wf(),
        ensures
            final(self).wf(),
            final(self).same_commands(*old(self)),
            (final(self).state(), r@) == start_list(
                old(self).graph(),
                (old(self).state(), Seq::<SchedulerAction>::empty()),
                selected_upto(old(self).state(), old(self).size()),
                false,
                old(self).size() as nat,
            ),
    {
        let list = self.selected_positions();
        self.start_each(&list, false)
    }

    /// Selects or deselects the command at `i`.
    pub fn select(&mut self, i: usize, value: bool)
        requires
            old(self).wf(),
            i < old(self).size(),
        ensures
            final(self).wf(),
            final(self).same_commands(*old(self)),
            final(self).state() == (SchedView {
                selected: old(self).state().selected.update(i as int, value),
                ..old(self).state()
            }),
    {
        self.set_selected(i, value);
    }

    /// Whether the command at `i` is selected.
    pub fn is_selected(&self, i: usize) -> (r: bool)
        requires
            self.wf(),
            i < self.size(),
        ensures
            r == self.state().selected[i as int],
    {
        self.selected[i]
    }

    /// The command whose terminal is shown.
    pub fn active(&self) -> (r: Option<usize>)
        requires
            self.wf(),
        ensures
            match r {
                Some(a) => self.state().active == Some(a as int) && a < self.size(),
                None => self.state().active is None,
            },
    {
        self.active
    }

    /// Shows the terminal of the command at `i`, where it has a process or
    /// waits for dependencies; else the active terminal stays.
    pub fn update_active(&mut self, i: usize)
        requires
            old(self).wf(),
            i < old(self).size(),
        ensures
            final(self).wf(),
            final(self).same_commands(*old(self)),
            final(self).state() == (SchedView {
                active: if old(self).state().statuses[i as int] is Some || old(
                    self,
                ).state().pending[i as int] is Some {
                    Some(i as int)
                } else {
                    old(self).state().active
                },
                ..old(self).state()
            }),
    {
        let waits = match &self.pending[i] {
            Some(_) => true,
            None => false,
        };
        assert(waits == (self.state().pending[i as int] is Some));
        if self.has_process(i) || waits {
            self.active = Some(i);
        }
    }

    /// The status that the interface shows for the command at `i`.
    pub fn status_of(&self, i: usize) -> (r: CommandStatus)
        requires
            self.wf(),
            i < self.size(),
        ensures
            r@ == shown_status(self.state(), i as int),
    {
        assert(self.state().errors[i as int] == error_view(self.errors@[i as int]));
        assert(self.state().statuses[i as int] == status_view(self.statuses@[i as int]));
        assert(self.state().pending[i as int] == pending_view(self.pending@[i as int]));
        match &self.errors[i] {
            Some(m) => CommandStatus::Error(m.clone()),
            None => match &self.statuses[i] {
                Some(status) => status.clone(),
                None => match &self.pending[i] {
                    Some(_) => CommandStatus::WaitingForDeps,
                    None => CommandStatus::Pending,
                },
            },
        }
    }

    /// Shuts down: every process is to be killed, and no process instance
    /// is left.
    pub fn shutdown(&mut self) -> (r: Vec<SchedulerAction>)
        requires
            old(self).wf(),
        ensures
            final(self).wf(),
            final(self).same_commands(*old(self)),
            r@ == kills_upto(old(self).state(), old(self).size()),
            forall|j: int|
                0 <= j < old(self).size() ==> #[trigger] final(self).state().statuses[j] is None,
            final(self).state().pending == old(self).state().pending,
            final(self).state().errors == old(self).state().errors,
            final(self).state().selected == old(self).state().selected,
            final(self).state().active == old(self).state().active,
    {
        let ghost s = self.state();
        let n = self.ids.len();
        let mut actions: Vec<SchedulerAction> = Vec::new();
        let mut j: usize = 0;
        while j < n
            invariant
                j <= n,
                n == self.size(),
                self.wf(),
                self.same_commands(*old(self)),
                s == old(self).state(),
                actions@ == kills_upto(s, j as int),
                forall|b: int| 0 <= b < j ==> #[trigger] self.state().statuses[b] is None,
                forall|b: int| j <= b < n ==> #[trigger] self.state().statuses[b] == s.statuses[b],
                self.state().pending == s.pending,
                self.state().errors == s.errors,
                self.state().selected == s.selected,
                self.state().active == s.active,
            decreases n - j,
        {
            let ghost before = self.state();
            assert(before.statuses[j as int] == s.statuses[j as int]);
            if self.has_process(j) {
                actions.push(SchedulerAction::Kill(j));
            }
            self.drop_process(j);
            proof {
                assert forall|b: int| 0 <= b < j + 1 implies #[trigger] self.state().statuses[b] is None by {
                    if b < j {
                        assert(before.statuses[b] is None);
                    }
                }
                assert forall|b: int| j + 1 <= b < n implies #[trigger] self.state().statuses[b]
                    == s.statuses[b] by {
                    assert(before.statuses[b] == s.statuses[b]);
                }
            }
            j += 1;
        }
        actions
    }
}

/// The state and the actions after starting each command of `list` in
/// order, each as the active terminal, so that the last one stays active.
pub open spec fn start_shown_list(
    g: Seq<Seq<int>>,
    st: (SchedView, Seq<SchedulerAction>),
    list: Seq<int>,
    fuel: nat,
) -> (SchedView, Seq<SchedulerAction>)
    decreases list.len(),
{
    if list.len() == 0 {
        st
    } else {
        start_spec(g, start_shown_list(g, st, list.drop_last(), fuel), list.last(), true, fuel)
    }
}

impl Scheduler {
    /// Starts each command of `list` in order, and switches the terminal
    /// pane to each as it is started.
    pub fn start_shown(&mut self, list: &Vec<usize>) -> (r: Vec<SchedulerAction>)
        requires
            old(self).wf(),
            forall|k: int| 0 <= k < list@.len() ==> #[trigger] list@[k] < old(self).size(),
        ensures
            final(self).wf(),
            final(self).same_commands(*old(self)),
            (final(self).state(), r@) == start_shown_list(
                old(self).graph(),
                (old(self).state(), Seq::<SchedulerAction>::empty()),
                ints(list@),
                old(self).size() as nat,
            ),
    {
        let ghost g = self.graph();
        let ghost st0 = (self.state(), Seq::<SchedulerAction>::empty());
        let fuel = self.ids.len();
        let mut actions: Vec<SchedulerAction> = Vec::new();
        let mut k: usize = 0;
        assert(ints(list@).take(0) =~= Seq::<int>::empty());
        while k < list.len()
            invariant
                k <= list.len(),
                self.wf(),
                self.same_commands(*old(self)),
                g == old(self).graph(),
                fuel == self.size(),
                forall|t: int| 0 <= t < list@.len() ==> #[trigger] list@[t] < self.size(),
                (self.state(), actions@) == start_shown_list(
                    g,
                    st0,
                    ints(list@).take(k as int),
                    fuel as nat,
                ),
            decreases list.len() - k,
        {
            proof {
                let next = ints(list@).take(k + 1);
                assert(next.drop_last() =~= ints(list@).take(k as int));
                assert(next.last() == list@[k as int] as int);
            }
            self.start_inner(list[k], true, fuel, &mut actions);
            k += 1;
        }
        assert(ints(list@).take(k as int) =~= ints(list@));
        actions
    }

    /// The display name of the command at `i`.
    pub fn name_at(&self, i: usize) -> (r: &String)
        requires
            self.wf(),
            i < self.size(),
        ensures
            r@ == self.names()[i as int],
    {
        &self.names[i]
    }

    /// Whether the command at `i` has a process instance.
    pub fn has_instance(&self, i: usize) -> (r: bool)
        requires
            self.wf(),
            i < self.size(),
        ensures
            r == (self.state().statuses[i as int] is Some),
    {
        self.has_process(i)
    }

    /// The status of the process instance of the command at `i`, where it
    /// has one.
    pub fn instance_status(&self, i: usize) -> (r: Option<&CommandStatus>)
        requires
            self.wf(),
            i < self.size(),
        ensures
            match r {
                Some(status) => self.state().statuses[i as int] == Some(status@),
                None => self.state().statuses[i as int] is None,
            },
    {
        assert(self.state().statuses[i as int] == status_view(self.statuses@[i as int]));
        match &self.statuses[i] {
            Some(status) => Some(status),
            None => None,
        }
    }

    /// The dependencies that the command at `i` waits for, where it waits.
    pub fn waiting_for(&self, i: usize) -> (r: Option<&Vec<usize>>)
        requires
            self.wf(),
            i < self.size(),
        ensures
            match r {
                Some(list) => self.state().pending[i as int] == Some(ints(list@)),
                None => self.state().pending[i as int] is None,
            },
    {
        assert(self.state().pending[i as int] == pending_view(self.pending@[i as int]));
        match &self.pending[i] {
            Some(list) => Some(list),
            None => None,
        }
    }

    /// Why the command at `i` could not run, where it could not.
    pub fn error_at(&self, i: usize) -> (r: Option<&String>)
        requires
            self.wf(),
            i < self.size(),
        ensures
            match r {
                Some(message) => self.state().errors[i as int] == Some(message@),
                None => self.state().errors[i as int] is None,
            },
    {
        assert(self.state().errors[i as int] == error_view(self.errors@[i as int]));
        match &self.errors[i] {
            Some(message) => Some(message),
            None => None,
        }
    }
}

/// The positions that the identifiers `wanted` name among `ids`, in order;
/// an identifier that names no command is left out.
pub open spec fn named_positions(ids: Seq<Seq<char>>, wanted: Seq<Seq<char>>) -> Seq<int> {
    crate::check::row_links(ids, wanted)
}

impl Scheduler {
    /// The positions of the commands with the given identifiers, in order.
    pub fn positions_of(&self, wanted: &Vec<String>) -> (r: Vec<usize>)
        ensures
            ints(r@) == named_positions(self.ids(), strs(wanted@)),
            forall|k: int| 0 <= k < r@.len() ==> #[trigger] r@[k] < self.size(),
    {
        let ghost all = strs(wanted@);
        let mut out: Vec<usize> = Vec::new();
        let mut k: usize = 0;
        assert(all.take(0) =~= Seq::<Seq<char>>::empty());
        assert(ints(out@) =~= named_positions(self.ids(), all.take(0)));
        while k < wanted.len()
            invariant
                k <= wanted.len(),
                all == strs(wanted@),
                ints(out@) == named_positions(self.ids(), all.take(k as int)),
                forall|t: int| 0 <= t < out@.len() ==> #[trigger] out@[t] < self.size(),
            decreases wanted.len() - k,
        {
            proof {
                let next = all.take(k + 1);
                assert(next.drop_last() =~= all.take(k as int));
                assert(next.last() == wanted@[k as int]@);
            }
            let at = find_text(&self.ids, &wanted[k]);
            if at < self.ids.len() {
                let ghost before = ints(out@);
                out.push(at);
                assert(ints(out@) =~= before.push(at as int));
            }
            k += 1;
        }
        assert(all.take(k as int) =~= all);
        out
    }
}

/// Where the command that stood at `d` among `old_ids` stands among
/// `new_ids`; the length of `new_ids` where it is gone.
pub open spec fn moved(old_ids: Seq<Seq<char>>, new_ids: Seq<Seq<char>>, d: int) -> int {
    position_of(new_ids, old_ids[d])
}

/// A list of positions among `old_ids` as positions among `new_ids`, in
/// order; what is gone is left out.
pub open spec fn moved_list(old_ids: Seq<Seq<char>>, new_ids: Seq<Seq<char>>, list: Seq<int>) -> Seq<
    int,
>
    decreases list.len(),
{
    if list.len() == 0 {
        Seq::empty()
    } else if moved(old_ids, new_ids, list.last()) < new_ids.len() {
        moved_list(old_ids, new_ids, list.drop_last()).push(moved(old_ids, new_ids, list.last()))
    } else {
        moved_list(old_ids, new_ids, list.drop_last())
    }
}

/// The state `s` of the commands `old_ids`, carried over to the commands
/// `new_ids`: a command whose identifier was known keeps its process
/// instance, what it waits for, its error and its selection; a new one
/// starts with nothing. The active terminal stays with its command, and is
/// none where that command is gone.
pub open spec fn carried(old_ids: Seq<Seq<char>>, new_ids: Seq<Seq<char>>, s: SchedView) -> SchedView {
    SchedView {
        statuses: Seq::new(
            new_ids.len(),
            |j: int|
                if position_of(old_ids, new_ids[j]) < old_ids.len() {
                    s.statuses[position_of(old_ids, new_ids[j])]
                } else {
                    None
                },
        ),
        pending: Seq::new(
            new_ids.len(),
            |j: int|
                if position_of(old_ids, new_ids[j]) < old_ids.len() {
                    match s.pending[position_of(old_ids, new_ids[j])] {
                        Some(list) => Some(moved_list(old_ids, new_ids, list)),
                        None => None,
                    }
                } else {
                    None
                },
        ),
        errors: Seq::new(
            new_ids.len(),
            |j: int|
                if position_of(old_ids, new_ids[j]) < old_ids.len() {
                    s.errors[position_of(old_ids, new_ids[j])]
                } else {
                    None
                },
        ),
        selected: Seq::new(
            new_ids.len(),
            |j: int|
                position_of(old_ids, new_ids[j]) < old_ids.len() && s.selected[position_of(
                    old_ids,
                    new_ids[j],
                )],
        ),
        active: match s.active {
            Some(a) => if moved(old_ids, new_ids, a) < new_ids.len() {
                Some(moved(old_ids, new_ids, a))
            } else {
                None
            },
            None => None,
        },
    }
}

proof fn lemma_moved_list_bounds(old_ids: Seq<Seq<char>>, new_ids: Seq<Seq<char>>, list: Seq<int>)
    ensures
        forall|k: int|
            0 <= k < moved_list(old_ids, new_ids, list).len() ==> 0 <= #[trigger] moved_list(
                old_ids,
                new_ids,
                list,
            )[k] < new_ids.len(),
    decreases list.len(),
{
    if list.len() > 0 {
        lemma_moved_list_bounds(old_ids, new_ids, list.drop_last());
        lemma_position_of(new_ids, old_ids[list.last()]);
        let rest = moved_list(old_ids, new_ids, list.drop_last());
        let all = moved_list(old_ids, new_ids, list);
        assert forall|k: int| 0 <= k < all.len() implies 0 <= #[trigger] all[k] < new_ids.len() by {
            if k < rest.len() {
                assert(all[k] == rest[k]);
            }
        }
    }
}

impl Scheduler {
    fn move_list(&self, new_ids: &Vec<String>, list: &Vec<usize>) -> (r: Vec<usize>)
        requires
            forall|k: int| 0 <= k < list@.len() ==> #[trigger] list@[k] < self.size(),
        ensures
            ints(r@) == moved_list(self.ids(), strs(new_ids@), ints(list@)),
    {
        let ghost all = ints(list@);
        let mut out: Vec<usize> = Vec::new();
        let mut k: usize = 0;
        assert(all.take(0) =~= Seq::<int>::empty());
        assert(ints(out@) =~= moved_list(self.ids(), strs(new_ids@), all.take(0)));
        while k < list.len()
            invariant
                k <= list.len(),
                all == ints(list@),
                forall|t: int| 0 <= t < list@.len() ==> #[trigger] list@[t] < self.size(),
                ints(out@) == moved_list(self.ids(), strs(new_ids@), all.take(k as int)),
            decreases list.len() - k,
        {
            proof {
                let next = all.take(k + 1);
                assert(next.drop_last() =~= all.take(k as int));
                assert(next.last() == list@[k as int] as int);
            }
            let at = find_text(new_ids, &self.ids[list[k]]);
            if at < new_ids.len() {
                let ghost before = ints(out@);
                out.push(at);
                assert(ints(out@) =~= before.push(at as int));
            }
            k += 1;
        }
        assert(all.take(k as int) =~= all);
        out
    }

    /// The scheduler for a changed list of commands. What was known of a
    /// command stays with it where its identifier is still there. The
    /// second result gives for each old position the new one, so that the
    /// caller can keep the processes that stay and let go of the others.
    pub fn reloaded(&self, commands: &Vec<&Command>) -> (r: (Scheduler, Vec<Option<usize>>))
        requires
            self.wf(),
        ensures
            r.0.wf(),
            r.0.ids() == command_ids(refs_view(commands@)),
            r.0.graph() == link_graph(refs_view(commands@)),
            r.0.size() == commands@.len(),
            forall|i: int| 0 <= i < commands@.len() ==> #[trigger] r.0.names()[i] == commands@[i]@.name,
            r.0.state() == carried(self.ids(), r.0.ids(), self.state()),
            r.1@.len() == self.size(),
            forall|d: int|
                0 <= d < self.size() ==> #[trigger] r.1@[d] == if moved(self.ids(), r.0.ids(), d)
                    < r.0.size() {
                    Some(moved(self.ids(), r.0.ids(), d) as usize)
                } else {
                    None::<usize>
                },
    {
        let fresh = Scheduler::new(commands);
        let ghost old_ids = self.ids();
        let ghost new_ids = fresh.ids();
        let ghost s = self.state();
        let ghost want = carried(old_ids, new_ids, s);
        let n = fresh.ids.len();
        let mut statuses: Vec<Option<CommandStatus>> = Vec::new();
        let mut pending: Vec<Option<Vec<usize>>> = Vec::new();
        let mut errors: Vec<Option<String>> = Vec::new();
        let mut selected: Vec<bool> = Vec::new();
        let mut j: usize = 0;
        while j < n
            invariant
                j <= n,
                n == fresh.size(),
                self.wf(),
                old_ids == self.ids(),
                new_ids == fresh.ids(),
                new_ids == strs(fresh.ids@),
                s == self.state(),
                want == carried(old_ids, new_ids, s),
                statuses@.len() == j,
                pending@.len() == j,
                errors@.len() == j,
                selected@.len() == j,
                forall|b: int| 0 <= b < j ==> status_view(#[trigger] statuses@[b]) == want.statuses[b],
                forall|b: int| 0 <= b < j ==> pending_view(#[trigger] pending@[b]) == want.pending[b],
                forall|b: int| 0 <= b < j ==> error_view(#[trigger] errors@[b]) == want.errors[b],
                forall|b: int| 0 <= b < j ==> #[trigger] selected@[b] == want.selected[b],
            decreases n - j,
        {
            let from = find_text(&self.ids, &fresh.ids[j]);
            proof {
                lemma_position_of(old_ids, new_ids[j as int]);
            }
            if from < self.ids.len() {
                assert(s.statuses[from as int] == status_view(self.statuses@[from as int]));
                assert(s.pending[from as int] == pending_view(self.pending@[from as int]));
                assert(s.errors[from as int] == error_view(self.errors@[from as int]));
                statuses.push(
                    match &self.statuses[from] {
                        Some(status) => Some(status.clone()),
                        None => None,
                    },
                );
                pending.push(
                    match &self.pending[from] {
                        Some(list) => {
                            assert forall|k: int| 0 <= k < list@.len() implies #[trigger] list@[k]
                                < self.size() by {
                                assert(s.pending[from as int]->Some_0[k] == list@[k]);
                            }
                            Some(self.move_list(&fresh.ids, list))
                        },
                        None => None,
                    },
                );
                errors.push(
                    match &self.errors[from] {
                        Some(message) => Some(message.clone()),
                        None => None,
                    },
                );
                selected.push(self.selected[from]);
            } else {
                statuses.push(None);
                pending.push(None);
                errors.push(None);
                selected.push(false);
            }
            j += 1;
        }
        let active = match self.active {
            Some(a) => {
                let at = find_text(&fresh.ids, &self.ids[a]);
                if at < n {
                    Some(at)
                } else {
                    None
                }
            },
            None => None,
        };
        let mut moves: Vec<Option<usize>> = Vec::new();
        let mut d: usize = 0;
        while d < self.ids.len()
            invariant
                d <= self.ids.len(),
                n == fresh.size(),
                old_ids == self.ids(),
                new_ids == fresh.ids(),
                new_ids == strs(fresh.ids@),
                moves@.len() == d,
                forall|b: int|
                    0 <= b < d ==> #[trigger] moves@[b] == if moved(old_ids, new_ids, b) < n {
                        Some(moved(old_ids, new_ids, b) as usize)
                    } else {
                        None::<usize>
                    },
            decreases self.ids.len() - d,
        {
            let at = find_text(&fresh.ids, &self.ids[d]);
            moves.push(
                if at < n {
                    Some(at)
                } else {
                    None
                },
            );
            d += 1;
        }
        let next = Scheduler {
            ids: fresh.ids,
            names: fresh.names,
            deps: fresh.deps,
            statuses,
            pending,
            errors,
            selected,
            active,
        };
        proof {
            assert(next.ids() == new_ids);
            assert(next.names() == fresh.names());
            assert(next.graph() == fresh.graph());
            assert(next.state().statuses =~= want.statuses);
            assert(next.state().pending =~= want.pending);
            assert(next.state().errors =~= want.errors);
            assert(next.state().selected =~= want.selected);
            if self.active is Some {
                lemma_position_of(new_ids, old_ids[self.active->Some_0 as int]);
            }
            assert(next.state().active == want.active);
            assert(next.state() == want);
            assert forall|a: int, k: int|
                0 <= a < n && want.pending[a] is Some && 0 <= k
                    < want.pending[a]->Some_0.len() implies 0 <= #[trigger] want.pending[a]->Some_0[k]
                < n by {
                let from = position_of(old_ids, new_ids[a]);
                lemma_moved_list_bounds(old_ids, new_ids, s.pending[from]->Some_0);
            }
            assert(view_wf(next.state(), n as int));
        }
        (next, moves)
    }
}

proof fn lemma_own_place(ids: Seq<Seq<char>>, j: int)
    requires
        distinct(ids),
        0 <= j < ids.len(),
    ensures
        position_of(ids, ids[j]) == j,
{
    assert forall|i: int| 0 <= i < j implies #[trigger] ids[i] != ids[j] by {
        if ids[i] == ids[j] {
            assert(repeats_at(ids, j));
        }
    }
    lemma_position_is(ids, ids[j], j);
}

proof fn lemma_list_stays(ids: Seq<Seq<char>>, list: Seq<int>)
    requires
        distinct(ids),
        forall|k: int| 0 <= k < list.len() ==> 0 <= #[trigger] list[k] < ids.len(),
    ensures
        moved_list(ids, ids, list) == list,
    decreases list.len(),
{
    if list.len() > 0 {
        lemma_list_stays(ids, list.drop_last());
        lemma_own_place(ids, list.last());
        assert(list.drop_last().push(list.last()) =~= list);
    } else {
        assert(list =~= Seq::<int>::empty());
    }
}

/// Reloading an unchanged list of commands changes nothing: where the
/// identifiers are unique, the state carried over to the same identifiers
/// is the state.
pub proof fn lemma_reload_unchanged(ids: Seq<Seq<char>>, s: SchedView)
    requires
        distinct(ids),
        view_wf(s, ids.len() as int),
    ensures
        carried(ids, ids, s) == s,
{
    let c = carried(ids, ids, s);
    assert forall|j: int| 0 <= j < ids.len() implies c.statuses[j] == s.statuses[j]
        && c.pending[j] == s.pending[j] && c.errors[j] == s.errors[j] && c.selected[j]
        == s.selected[j] by {
        lemma_own_place(ids, j);
        if s.pending[j] is Some {
            let list = s.pending[j]->Some_0;
            assert forall|k: int| 0 <= k < list.len() implies 0 <= #[trigger] list[k]
                < ids.len() by {
                assert(0 <= s.pending[j]->Some_0[k] < ids.len());
            }
            lemma_list_stays(ids, list);
        }
    }
    assert(c.statuses =~= s.statuses);
    assert(c.pending =~= s.pending);
    assert(c.errors =~= s.errors);
    assert(c.selected =~= s.selected);
    if s.active is Some {
        lemma_own_place(ids, s.active->Some_0);
    }
}

} // verus!
