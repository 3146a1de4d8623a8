//! What the interface does with the scheduler: what the terminal pane
//! shows, and how selections and runs follow the cursor.

use vstd::prelude::*;
use vstd::string::*;
use crate::commands::auto::strs;
use crate::graph::ints;
use crate::scheduler::{
    named_positions, selected_upto, start_list, SchedView, Scheduler, SchedulerAction,
};
use crate::text::{find_text, listed};
use crate::tui::app::{CommandStatus, StatusView};
use crate::tui::tree_widget::{visible_view, VisibleNode, VisibleView};

verus! {

/// How a dependency stands for a command that waits for it.
#[derive(Debug, Clone, Copy, PartialEq, Eq, Structural)]
pub enum DepLabel {
    Running,
    Done,
    Failed,
    Pending,
}

impl DepLabel {
    /// The word shown for the label.
    pub fn text(&self) -> (r: &'static str)
        ensures
            r@ == match *self {
                DepLabel::Running => "running"@,
                DepLabel::Done => "done"@,
                DepLabel::Failed => "failed"@,
                DepLabel::Pending => "pending"@,
            },
    {
        match self {
            DepLabel::Running => "running",
            DepLabel::Done => "done",
            DepLabel::Failed => "failed",
            DepLabel::Pending => "pending",
        }
    }
}

/// The label of a dependency whose process instance has this status.
pub open spec fn label_of(status: Option<StatusView>) -> DepLabel {
    match status {
        Some(StatusView::Running) => DepLabel::Running,
        Some(StatusView::Success) => DepLabel::Done,
        Some(StatusView::Failure(_)) => DepLabel::Failed,
        Some(StatusView::Error(_)) => DepLabel::Failed,
        _ => DepLabel::Pending,
    }
}

/// Mathematical model of [`WaitingLine`].
pub struct WaitingView {
    pub name: Seq<char>,
    pub label: DepLabel,
}

/// A dependency that the active command waits for, as it is listed.
#[derive(Debug)]
pub struct WaitingLine {
    pub name: String,
    pub label: DepLabel,
}

impl View for WaitingLine {
    type V = WaitingView;

    open spec fn view(&self) -> WaitingView {
        WaitingView { name: self.name@, label: self.label }
    }
}

/// Mathematical model of [`TerminalPane`].
pub enum PaneView {
    Error(Seq<char>),
    Waiting(Seq<WaitingView>),
    Terminal(int),
    Placeholder,
}

/// What the terminal pane shows.
#[derive(Debug)]
pub enum TerminalPane {
    /// Why the active command could not run.
    Error(String),
    /// The dependencies that the active command waits for.
    Waiting(Vec<WaitingLine>),
    /// The terminal of the command at this position.
    Terminal(usize),
    /// A note that no command is running.
    Placeholder,
}

impl View for TerminalPane {
    type V = PaneView;

    open spec fn view(&self) -> PaneView {
        match self {
            TerminalPane::Error(m) => PaneView::Error(m@),
            TerminalPane::Waiting(lines) => PaneView::Waiting(
                Seq::new(lines@.len(), |k: int| lines@[k]@),
            ),
            TerminalPane::Terminal(i) => PaneView::Terminal(*i as int),
            TerminalPane::Placeholder => PaneView::Placeholder,
        }
    }
}

/// The heading above the dependencies that a command waits for.
pub const WAITING_HEADING: &'static str = " ❱ Waiting for dependencies:";

/// What stands in front of each dependency in that list.
pub const WAITING_BULLET: &'static str = "   ◌ ";

/// The note shown while no command is active.
pub const PLACEHOLDER: &'static str = "No command running. Press 'r' to run a command.";

/// The lines for the dependencies `deps`: the name of each and how it
/// stands.
pub open spec fn waiting_lines(names: Seq<Seq<char>>, s: SchedView, deps: Seq<int>) -> Seq<
    WaitingView,
> {
    Seq::new(
        deps.len(),
        |k: int| WaitingView { name: names[deps[k]], label: label_of(s.statuses[deps[k]]) },
    )
}

/// What the terminal pane shows: for the active command its error, where
/// one is recorded; else what it waits for, where it waits; else its
/// terminal, where it has a process instance. Otherwise the placeholder.
pub open spec fn pane_of(names: Seq<Seq<char>>, s: SchedView) -> PaneView {
    match s.active {
        None => PaneView::Placeholder,
        Some(a) => match s.errors[a] {
            Some(m) => PaneView::Error(m),
            None => match s.pending[a] {
                Some(deps) => PaneView::Waiting(waiting_lines(names, s, deps)),
                None => if s.statuses[a] is Some {
                    PaneView::Terminal(a)
                } else {
                    PaneView::Placeholder
                },
            },
        },
    }
}

/// The selection after all of `list` was set to `value`.
pub open spec fn all_set(selected: Seq<bool>, list: Seq<int>, value: bool) -> Seq<bool> {
    Seq::new(
        selected.len(),
        |j: int|
            if list.contains(j) {
                value
            } else {
                selected[j]
            },
    )
}

/// Every command of `list` is selected.
pub open spec fn all_selected(selected: Seq<bool>, list: Seq<int>) -> bool {
    forall|k: int| 0 <= k < list.len() ==> selected[#[trigger] list[k]]
}

/// The selection after a check run: of the commands that were run, those
/// that failed are selected and the others are not; the rest stays.
pub open spec fn failed_selected(
    ids: Seq<Seq<char>>,
    selected: Seq<bool>,
    ran: Seq<Seq<char>>,
    failed: Seq<Seq<char>>,
) -> Seq<bool> {
    Seq::new(
        selected.len(),
        |j: int|
            if listed(ran, ids[j]) {
                listed(failed, ids[j])
            } else {
                selected[j]
            },
    )
}

/// The command at `i` has a process instance or waits for dependencies.
pub open spec fn started(s: SchedView, i: int) -> bool {
    s.statuses[i] is Some || s.pending[i] is Some
}

/// The active terminal after the selected commands were started: the
/// command under the cursor where it has a process instance or waits, else
/// the first selected command, which has one or waits now, else what it
/// was.
pub open spec fn active_after_run(s: SchedView, cursor: Option<int>, first: Option<int>) -> Option<
    int,
> {
    if cursor matches Some(c) && started(s, c) {
        cursor
    } else if first matches Some(f) && started(s, f) {
        first
    } else {
        s.active
    }
}

/// The first of a list, where it has one.
pub open spec fn first_of(list: Seq<int>) -> Option<int> {
    if list.len() > 0 {
        Some(list[0])
    } else {
        None
    }
}

impl Scheduler {
    /// What the terminal pane shows.
    pub fn pane(&self) -> (r: TerminalPane)
        requires
            self.wf(),
        ensures
            r@ == pane_of(self.names(), self.state()),
    {
        let a = match self.active() {
            Some(a) => a,
            None => {
                return TerminalPane::Placeholder;
            },
        };
        if let Some(message) = self.error_at(a) {
            return TerminalPane::Error(message.clone());
        }
        if let Some(deps) = self.waiting_for(a) {
            let ghost want = waiting_lines(self.names(), self.state(), ints(deps@));
            let mut lines: Vec<WaitingLine> = Vec::new();
            let mut k: usize = 0;
            while k < deps.len()
                invariant
                    k <= deps.len(),
                    self.wf(),
                    a < self.size(),
                    self.state().pending[a as int] == Some(ints(deps@)),
                    want == waiting_lines(self.names(), self.state(), ints(deps@)),
                    lines@.len() == k,
                    forall|t: int| 0 <= t < k ==> (#[trigger] lines@[t])@ == want[t],
                decreases deps.len() - k,
            {
                let d = deps[k];
                assert(ints(deps@)[k as int] == d);
                assert(self.state().pending[a as int]->Some_0[k as int] < self.size());
                let label = match self.instance_status(d) {
                    Some(CommandStatus::Running) => DepLabel::Running,
                    Some(CommandStatus::Success) => DepLabel::Done,
                    Some(CommandStatus::Failure(_)) => DepLabel::Failed,
                    Some(CommandStatus::Error(_)) => DepLabel::Failed,
                    _ => DepLabel::Pending,
                };
                lines.push(WaitingLine { name: self.name_at(d).clone(), label });
                k += 1;
            }
            let pane = TerminalPane::Waiting(lines);
            assert(pane@->Waiting_0 =~= want);
            return pane;
        }
        if self.has_instance(a) {
            TerminalPane::Terminal(a)
        } else {
            TerminalPane::Placeholder
        }
    }

    /// Selects all commands of `list` unless all of them are selected
    /// already, in which case it deselects them. The result is the new
    /// state of each.
    pub fn toggle_all(&mut self, list: &Vec<usize>) -> (r: bool)
        requires
            old(self).wf(),
            forall|k: int| 0 <= k < list@.len() ==> #[trigger] list@[k] < old(self).size(),
        ensures
            final(self).wf(),
            final(self).same_commands(*old(self)),
            r == !all_selected(old(self).state().selected, ints(list@)),
            final(self).state() == (SchedView {
                selected: all_set(old(self).state().selected, ints(list@), r),
                ..old(self).state()
            }),
    {
        let ghost s = self.state();
        let ghost wanted = ints(list@);
        let mut all = true;
        let mut k: usize = 0;
        while k < list.len()
            invariant
                k <= list.len(),
                self.wf(),
                s == self.state(),
                wanted == ints(list@),
                forall|t: int| 0 <= t < list@.len() ==> #[trigger] list@[t] < self.size(),
                all == all_selected(s.selected, wanted.take(k as int)),
            decreases list.len() - k,
        {
            let on = self.is_selected(list[k]);
            proof {
                let next = wanted.take(k + 1);
                let prev = wanted.take(k as int);
                assert(next[k as int] == list@[k as int] as int);
                if all && on {
                    assert forall|t: int| 0 <= t < next.len() implies s.selected[#[trigger] next[t]] by {
                        if t < k {
                            assert(prev[t] == next[t]);
                        }
                    }
                } else if all {
                    assert(!s.selected[next[k as int]]);
                } else {
                    let t = choose|t: int| 0 <= t < prev.len() && !s.selected[#[trigger] prev[t]];
                    assert(next[t] == prev[t]);
                }
            }
            all = all && on;
            k += 1;
        }
        assert(wanted.take(k as int) =~= wanted);
        let value = !all;
        self.select_each(list, value);
        value
    }

    /// Starts every selected command in the background, and then shows the
    /// terminal of the command under the cursor, where that command has a
    /// process instance or waits, and else that of the first selected.
    pub fn run_selected_at(&mut self, cursor: Option<usize>) -> (r: Vec<SchedulerAction>)
        requires
            old(self).wf(),
            cursor matches Some(c) ==> c < old(self).size(),
        ensures
            final(self).wf(),
            final(self).same_commands(*old(self)),
            ({
                let started = start_list(
                    old(self).graph(),
                    (old(self).state(), Seq::<SchedulerAction>::empty()),
                    selected_upto(old(self).state(), old(self).size()),
                    false,
                    old(self).size() as nat,
                );
                &&& r@ == started.1
                &&& final(self).state() == (SchedView {
                    active: active_after_run(
                        started.0,
                        match cursor {
                            Some(c) => Some(c as int),
                            None => None,
                        },
                        first_of(selected_upto(old(self).state(), old(self).size())),
                    ),
                    ..started.0
                })
            }),
    {
        let list = self.selected_positions();
        let actions = self.start_each(&list, false);
        let ghost started = self.state();
        let under = match cursor {
            Some(c) => self.has_instance(c) || self.waiting_for(c).is_some(),
            None => false,
        };
        if under {
            self.update_active(cursor.unwrap());
        } else if list.len() > 0 {
            assert(ints(list@)[0] == list@[0]);
            self.update_active(list[0]);
        } else {
            assert(self.state() == (SchedView { active: started.active, ..started }));
        }
        actions
    }

    /// Takes over the outcome of a check run: of the commands that were
    /// run, those that failed are selected, the others are deselected.
    pub fn select_failed(&mut self, ran: &Vec<String>, failed: &Vec<String>)
        requires
            old(self).wf(),
        ensures
            final(self).wf(),
            final(self).same_commands(*old(self)),
            final(self).state() == (SchedView {
                selected: failed_selected(
                    old(self).ids(),
                    old(self).state().selected,
                    strs(ran@),
                    strs(failed@),
                ),
                ..old(self).state()
            }),
    {
        let ghost s = self.state();
        let ghost want = failed_selected(self.ids(), s.selected, strs(ran@), strs(failed@));
        let n = self.len();
        let mut j: usize = 0;
        assert(self.state() == (SchedView { selected: s.selected, ..s }));
        while j < n
            invariant
                j <= n,
                n == self.size(),
                self.wf(),
                self.same_commands(*old(self)),
                s == old(self).state(),
                s.selected.len() == n,
                want == failed_selected(old(self).ids(), s.selected, strs(ran@), strs(failed@)),
                self.state().selected.len() == n,
                forall|b: int| 0 <= b < j ==> #[trigger] self.state().selected[b] == want[b],
                forall|b: int| j <= b < n ==> #[trigger] self.state().selected[b] == s.selected[b],
                self.state() == (SchedView { selected: self.state().selected, ..s }),
            decreases n - j,
        {
            let ghost before = self.state().selected;
            if find_text(ran, self.id_at(j)) < ran.len() {
                let value = find_text(failed, self.id_at(j)) < failed.len();
                self.select(j, value);
            }
            proof {
                assert forall|b: int| 0 <= b < j + 1 implies #[trigger] self.state().selected[b]
                    == want[b] by {
                    if b < j {
                        assert(before[b] == want[b]);
                    } else {
                        assert(before[b] == s.selected[b]);
                    }
                }
                assert forall|b: int| j + 1 <= b < n implies #[trigger] self.state().selected[b]
                    == s.selected[b] by {
                    assert(before[b] == s.selected[b]);
                }
            }
            j += 1;
        }
        assert(self.state().selected =~= want);
    }
}

impl Scheduler {
    fn select_each(&mut self, list: &Vec<usize>, value: bool)
        requires
            old(self).wf(),
            forall|k: int| 0 <= k < list@.len() ==> #[trigger] list@[k] < old(self).size(),
        ensures
            final(self).wf(),
            final(self).same_commands(*old(self)),
            final(self).state() == (SchedView {
                selected: all_set(old(self).state().selected, ints(list@), value),
                ..old(self).state()
            }),
    {
        let ghost s = self.state();
        let ghost wanted = ints(list@);
        let mut k: usize = 0;
        assert(self.state().selected =~= all_set(s.selected, wanted.take(0), value));
        while k < list.len()
            invariant
                k <= list.len(),
                self.wf(),
                self.same_commands(*old(self)),
                s == old(self).state(),
                s.selected.len() == self.size(),
                wanted == ints(list@),
                forall|t: int| 0 <= t < list@.len() ==> #[trigger] list@[t] < self.size(),
                self.state() == (SchedView {
                    selected: all_set(s.selected, wanted.take(k as int), value),
                    ..s
                }),
            decreases list.len() - k,
        {
            let ghost before = self.state().selected;
            self.select(list[k], value);
            proof {
                let next = wanted.take(k + 1);
                let prev = wanted.take(k as int);
                let d = list@[k as int] as int;
                assert(next =~= prev.push(d));
                assert forall|j: int| 0 <= j < s.selected.len() implies before.update(d, value)[j]
                    == all_set(s.selected, next, value)[j] by {
                    if j == d {
                        assert(next[k as int] == d);
                    } else if prev.contains(j) {
                        let t = choose|t: int| 0 <= t < prev.len() && prev[t] == j;
                        assert(next[t] == j);
                    } else if next.contains(j) {
                        let t = choose|t: int| 0 <= t < next.len() && next[t] == j;
                        assert(t < k);
                        assert(prev[t] == j);
                    }
                }
                assert(before.update(d, value) =~= all_set(s.selected, next, value));
            }
            k += 1;
        }
        assert(wanted.take(k as int) =~= wanted);
    }

    /// Deselects every command.
    pub fn deselect_all(&mut self)
        requires
            old(self).wf(),
        ensures
            final(self).wf(),
            final(self).same_commands(*old(self)),
            final(self).state() == (SchedView {
                selected: Seq::new(old(self).size() as nat, |j: int| false),
                ..old(self).state()
            }),
    {
        let ghost s = self.state();
        let n = self.len();
        let mut j: usize = 0;
        assert(self.state() == (SchedView { selected: s.selected, ..s }));
        while j < n
            invariant
                j <= n,
                n == self.size(),
                self.wf(),
                self.same_commands(*old(self)),
                s == old(self).state(),
                self.state().selected.len() == n,
                forall|b: int| 0 <= b < j ==> !#[trigger] self.state().selected[b],
                self.state() == (SchedView { selected: self.state().selected, ..s }),
            decreases n - j,
        {
            let ghost before = self.state().selected;
            self.select(j, false);
            assert forall|b: int| 0 <= b < j + 1 implies !#[trigger] self.state().selected[b] by {
                if b < j {
                    assert(!before[b]);
                }
            }
            j += 1;
        }
        assert(self.state().selected =~= Seq::new(n as nat, |j: int| false));
    }

    /// The commands `triggered` were picked by the watcher: each is
    /// selected, and then each is started in the background, in order.
    pub fn watcher_triggered(&mut self, triggered: &Vec<String>) -> (r: Vec<SchedulerAction>)
        requires
            old(self).wf(),
        ensures
            final(self).wf(),
            final(self).same_commands(*old(self)),
            (final(self).state(), r@) == start_list(
                old(self).graph(),
                (
                    SchedView {
                        selected: all_set(
                            old(self).state().selected,
                            named_positions(old(self).ids(), strs(triggered@)),
                            true,
                        ),
                        ..old(self).state()
                    },
                    Seq::<SchedulerAction>::empty(),
                ),
                named_positions(old(self).ids(), strs(triggered@)),
                false,
                old(self).size() as nat,
            ),
    {
        let list = self.positions_of(triggered);
        self.select_each(&list, true);
        self.start_each(&list, false)
    }
}

/// The first row whose node is one of `wanted`, where there is one.
pub open spec fn first_row_of(nodes: Seq<VisibleView>, wanted: Seq<Seq<char>>, row: Option<int>) -> bool {
    match row {
        Some(i) => {
            &&& 0 <= i < nodes.len()
            &&& listed(wanted, nodes[i].id)
            &&& forall|k: int| 0 <= k < i ==> !listed(wanted, (#[trigger] nodes[k]).id)
        },
        None => forall|k: int| 0 <= k < nodes.len() ==> !listed(wanted, (#[trigger] nodes[k]).id),
    }
}

/// The first visible row that shows one of the commands `failed`: where
/// the cursor goes after a check run.
pub fn first_failed_row(nodes: &Vec<VisibleNode>, failed: &Vec<String>) -> (r: Option<usize>)
    ensures
        first_row_of(
            visible_view(nodes@),
            strs(failed@),
            match r {
                Some(i) => Some(i as int),
                None => None,
            },
        ),
{
    let ghost shown = visible_view(nodes@);
    let mut i: usize = 0;
    while i < nodes.len()
        invariant
            i <= nodes.len(),
            shown == visible_view(nodes@),
            forall|k: int| 0 <= k < i ==> !listed(strs(failed@), (#[trigger] shown[k]).id),
        decreases nodes.len() - i,
    {
        assert(shown[i as int].id == nodes@[i as int].id@);
        if find_text(failed, &nodes[i].id) < failed.len() {
            return Some(i);
        }
        i += 1;
    }
    None
}

} // verus!
