//! From the command tree to the list of visible nodes.

use vstd::prelude::*;
use vstd::string::*;
use crate::commands::auto::strs;
use crate::commands::command::{commands_view, refs_view, Command, CommandView};
use crate::commands::group::{flat_commands, groups_view, lemma_group_view, CommandGroup, GroupView};
use crate::text::{
    contains_text, find_text, lemma_position_of, lowercase, lowercase_of, position_of,
    str_contains,
};
use crate::validate::{command_ids, ids_of};
use crate::tui::app::{CommandStatus, StatusView};
use crate::tui::tree_widget::{visible_view, KindView, NodeKind, VisibleNode, VisibleView};

verus! {

/// Mathematical model of [`CommandDisplay`].
pub struct DisplayView {
    pub id: Seq<char>,
    pub selected: bool,
    pub status: StatusView,
    pub duration: Option<Seq<char>>,
}

/// What the tree shows of a command besides its name.
#[derive(Debug)]
pub struct CommandDisplay {
    pub id: String,
    pub selected: bool,
    pub status: CommandStatus,
    pub duration: Option<String>,
}

impl View for CommandDisplay {
    type V = DisplayView;

    open spec fn view(&self) -> DisplayView {
        DisplayView {
            id: self.id@,
            selected: self.selected,
            status: self.status@,
            duration: match self.duration {
                Some(d) => Some(d@),
                None => None,
            },
        }
    }
}

/// Mathematical model of [`TreeContext`].
pub struct ContextView {
    pub expanded: Seq<(Seq<char>, bool)>,
    pub commands: Seq<DisplayView>,
    pub filter: Option<Seq<char>>,
}

/// Shared state passed through the flattening of the tree.
pub struct TreeContext<'a> {
    /// Which groups are expanded, by identifier; a group without an entry
    /// is expanded.
    pub expanded: &'a Vec<(String, bool)>,
    /// What is shown of each command, by identifier; a command without an
    /// entry is not selected and has not run.
    pub commands: &'a Vec<CommandDisplay>,
    /// The search query, where a search is going on.
    pub filter: Option<&'a str>,
}

impl<'a> View for TreeContext<'a> {
    type V = ContextView;

    open spec fn view(&self) -> ContextView {
        ContextView {
            expanded: Seq::new(self.expanded@.len(), |i: int| (
                self.expanded@[i].0@,
                self.expanded@[i].1,
            )),
            commands: Seq::new(self.commands@.len(), |i: int| self.commands@[i]@),
            filter: match self.filter {
                Some(q) => Some(q@),
                None => None,
            },
        }
    }
}

/// The index of the first entry for `id`, or the list's length.
pub open spec fn expanded_position(list: Seq<(Seq<char>, bool)>, id: Seq<char>, from: int) -> int
    decreases list.len() - from,
{
    if from >= list.len() {
        list.len() as int
    } else if list[from].0 == id {
        from
    } else {
        expanded_position(list, id, from + 1)
    }
}

/// Whether the group `id` is expanded: what its first entry says, and yes
/// where it has none.
pub open spec fn expanded_of(list: Seq<(Seq<char>, bool)>, id: Seq<char>) -> bool {
    let at = expanded_position(list, id, 0);
    if 0 <= at < list.len() {
        list[at].1
    } else {
        true
    }
}

/// The index of the first entry for `id`, or the list's length.
pub open spec fn display_position(list: Seq<DisplayView>, id: Seq<char>, from: int) -> int
    decreases list.len() - from,
{
    if from >= list.len() {
        list.len() as int
    } else if list[from].id == id {
        from
    } else {
        display_position(list, id, from + 1)
    }
}

/// What is shown of the command `id`: its first entry, and where it has
/// none, that it is not selected and has not run.
pub open spec fn display_of(list: Seq<DisplayView>, id: Seq<char>) -> DisplayView {
    let at = display_position(list, id, 0);
    if 0 <= at < list.len() {
        list[at]
    } else {
        DisplayView { id, selected: false, status: StatusView::Pending, duration: None }
    }
}

/// A search is going on: there is a query, and it is not empty.
pub open spec fn has_filter(filter: Option<Seq<char>>) -> bool {
    filter matches Some(q) && q.len() > 0
}

/// The command's name, identifier or shell string holds `query`, whatever
/// the case of the command's letters.
pub open spec fn command_matches(c: CommandView, query: Seq<char>) -> bool {
    contains_text(lowercase_of(c.name), query) || contains_text(lowercase_of(c.id), query)
        || contains_text(lowercase_of(c.cmd), query)
}

/// One of the commands below `upto` matches.
pub open spec fn any_command_matches(cs: Seq<CommandView>, query: Seq<char>, upto: int) -> bool {
    exists|i: int| 0 <= i < upto && i < cs.len() && command_matches(#[trigger] cs[i], query)
}

/// The group, or something in it, matches the query, whatever the case of
/// the letters.
pub open spec fn group_matches(g: GroupView, query: Seq<char>) -> bool
    decreases g, 1int,
{
    let q = lowercase_of(query);
    contains_text(lowercase_of(g.name), q) || contains_text(lowercase_of(g.id), q)
        || any_command_matches(g.commands, q, g.commands.len() as int) || any_group_matches(
        g.children,
        q,
    )
}

/// One of the groups, or something in one of them, matches the query.
pub open spec fn any_group_matches(gs: Seq<GroupView>, query: Seq<char>) -> bool
    decreases gs, 0int,
{
    gs.len() > 0 && (any_group_matches(gs.drop_last(), query) || group_matches(gs.last(), query))
}

/// Whether a command matches the filter query, given in lowercase.
pub fn command_matches_filter(cmd: &Command, query: &str) -> (r: bool)
    ensures
        r == command_matches(cmd@, query@),
{
    str_contains(lowercase(cmd.name.as_str()).as_str(), query) || str_contains(
        lowercase(cmd.id.as_str()).as_str(),
        query,
    ) || str_contains(lowercase(cmd.cmd.as_str()).as_str(), query)
}

/// Whether a group or anything in it matches the filter query, whatever
/// the case of the letters.
pub fn matches_filter(group: &CommandGroup, query: &str) -> (r: bool)
    ensures
        r == group_matches(group@, query@),
    decreases group,
{
    proof {
        lemma_group_view(*group);
    }
    let q = lowercase(query);
    if str_contains(lowercase(group.name.as_str()).as_str(), q.as_str()) || str_contains(
        lowercase(group.id.as_str()).as_str(),
        q.as_str(),
    ) {
        return true;
    }
    let mut i: usize = 0;
    while i < group.commands.len()
        invariant
            i <= group.commands.len(),
            group@.commands == commands_view(group.commands@),
            q@ == lowercase_of(query@),
            !any_command_matches(group@.commands, q@, i as int),
        decreases group.commands.len() - i,
    {
        if command_matches_filter(&group.commands[i], q.as_str()) {
            assert(command_matches(group@.commands[i as int], q@));
            assert(any_command_matches(group@.commands, q@, group@.commands.len() as int));
            return true;
        }
        proof {
            if any_command_matches(group@.commands, q@, i + 1) {
                let t = choose|t: int|
                    0 <= t < i + 1 && t < group@.commands.len() && command_matches(
                        #[trigger] group@.commands[t],
                        q@,
                    );
                if t < i {
                    assert(any_command_matches(group@.commands, q@, i as int));
                }
            }
        }
        i += 1;
    }
    let mut k: usize = 0;
    assert(group@.children.take(0) =~= Seq::<GroupView>::empty());
    while k < group.children.len()
        invariant
            k <= group.children.len(),
            group@.children == groups_view(group.children@),
            q@ == lowercase_of(query@),
            !any_group_matches(group@.children.take(k as int), q@),
        decreases group.children.len() - k,
    {
        proof {
            let next = group@.children.take(k + 1);
            assert(next.drop_last() =~= group@.children.take(k as int));
            assert(next.last() == group.children@[k as int]@);
        }
        if matches_filter(&group.children[k], q.as_str()) {
            proof {
                lemma_any_group_prefix(group@.children, q@, k + 1);
            }
            return true;
        }
        k += 1;
    }
    assert(group@.children.take(k as int) =~= group@.children);
    false
}

proof fn lemma_any_group_prefix(gs: Seq<GroupView>, query: Seq<char>, n: int)
    requires
        0 <= n <= gs.len(),
        any_group_matches(gs.take(n), query),
    ensures
        any_group_matches(gs, query),
    decreases gs.len() - n,
{
    if n < gs.len() {
        let next = gs.take(n + 1);
        assert(next.drop_last() =~= gs.take(n));
        lemma_any_group_prefix(gs, query, n + 1);
    } else {
        assert(gs.take(n) =~= gs);
    }
}

/// A sum cut to sixteen bits.
pub open spec fn wrap16(n: int) -> u16 {
    (n % 0x1_0000) as u16
}

/// How many commands the tree under a group holds, cut to sixteen bits.
pub open spec fn commands_total(g: GroupView) -> u16
    decreases g, 1int,
{
    wrap16(wrap16(g.commands.len() as int) + children_total(g.children))
}

/// How many commands the trees under a list of groups hold, cut to sixteen
/// bits.
pub open spec fn children_total(gs: Seq<GroupView>) -> u16
    decreases gs, 0int,
{
    if gs.len() == 0 {
        0
    } else {
        wrap16(children_total(gs.drop_last()) + commands_total(gs.last()))
    }
}

/// How many commands the tree under a group holds.
pub fn count_commands(group: &CommandGroup) -> (r: u16)
    ensures
        r == commands_total(group@),
    decreases group,
{
    proof {
        lemma_group_view(*group);
    }
    let own = (group.commands.len() % 0x1_0000) as u16;
    let mut children: u16 = 0;
    let mut k: usize = 0;
    assert(group@.children.take(0) =~= Seq::<GroupView>::empty());
    while k < group.children.len()
        invariant
            k <= group.children.len(),
            group@.children == groups_view(group.children@),
            children == children_total(group@.children.take(k as int)),
        decreases group.children.len() - k,
    {
        proof {
            let next = group@.children.take(k + 1);
            assert(next.drop_last() =~= group@.children.take(k as int));
            assert(next.last() == group.children@[k as int]@);
        }
        let sub = count_commands(&group.children[k]);
        children = ((children as u32 + sub as u32) % 0x1_0000) as u16;
        k += 1;
    }
    assert(group@.children.take(k as int) =~= group@.children);
    ((own as u32 + children as u32) % 0x1_0000) as u16
}

/// Counts of commands by what became of them.
#[derive(Debug, Clone, Copy, PartialEq, Eq, Structural)]
pub struct StatusCounts {
    pub success: u16,
    pub running: u16,
    pub failure: u16,
    pub selected: u16,
}

impl StatusCounts {
    /// Counts of nothing.
    pub fn new() -> (r: Self)
        ensures
            r == (StatusCounts { success: 0, running: 0, failure: 0, selected: 0 }),
    {
        StatusCounts { success: 0, running: 0, failure: 0, selected: 0 }
    }

    /// The sum of two counts, each number cut to sixteen bits.
    pub open spec fn plus(self, other: StatusCounts) -> StatusCounts {
        StatusCounts {
            success: wrap16(self.success + other.success),
            running: wrap16(self.running + other.running),
            failure: wrap16(self.failure + other.failure),
            selected: wrap16(self.selected + other.selected),
        }
    }

    /// Adds `other` to these counts.
    pub fn merge(&mut self, other: &StatusCounts)
        ensures
            *final(self) == old(self).plus(*other),
    {
        self.success = ((self.success as u32 + other.success as u32) % 0x1_0000) as u16;
        self.running = ((self.running as u32 + other.running as u32) % 0x1_0000) as u16;
        self.failure = ((self.failure as u32 + other.failure as u32) % 0x1_0000) as u16;
        self.selected = ((self.selected as u32 + other.selected as u32) % 0x1_0000) as u16;
    }
}

/// What one command adds to the counts.
pub open spec fn counts_of(d: DisplayView) -> StatusCounts {
    StatusCounts {
        success: if d.status is Success {
            1
        } else {
            0
        },
        running: if d.status is Running || d.status is WaitingForDeps {
            1
        } else {
            0
        },
        failure: if d.status is Failure || d.status is Error {
            1
        } else {
            0
        },
        selected: if d.selected {
            1
        } else {
            0
        },
    }
}

/// The counts over a list of commands.
pub open spec fn commands_counts(cs: Seq<CommandView>, shown: Seq<DisplayView>) -> StatusCounts
    decreases cs.len(),
{
    if cs.len() == 0 {
        StatusCounts { success: 0, running: 0, failure: 0, selected: 0 }
    } else {
        commands_counts(cs.drop_last(), shown).plus(counts_of(display_of(shown, cs.last().id)))
    }
}

/// The counts over the tree under a group: its own commands, then each
/// child group's.
pub open spec fn group_counts(g: GroupView, shown: Seq<DisplayView>) -> StatusCounts
    decreases g, 1int,
{
    children_counts(g.children, shown, commands_counts(g.commands, shown))
}

/// `base` and the counts over the trees under a list of groups.
pub open spec fn children_counts(
    gs: Seq<GroupView>,
    shown: Seq<DisplayView>,
    base: StatusCounts,
) -> StatusCounts
    decreases gs, 0int,
{
    if gs.len() == 0 {
        base
    } else {
        children_counts(gs.drop_last(), shown, base).plus(group_counts(gs.last(), shown))
    }
}

impl<'a> TreeContext<'a> {
    /// Whether the group with the identifier `id` is expanded.
    pub fn is_expanded(&self, id: &String) -> (r: bool)
        ensures
            r == expanded_of(self@.expanded, id@),
    {
        let ghost list = self@.expanded;
        let mut i: usize = 0;
        while i < self.expanded.len()
            invariant
                i <= self.expanded.len(),
                list == self@.expanded,
                expanded_position(list, id@, 0) == expanded_position(list, id@, i as int),
            decreases self.expanded.len() - i,
        {
            assert(list[i as int].0 == self.expanded@[i as int].0@);
            if self.expanded[i].0.eq(id) {
                return self.expanded[i].1;
            }
            i += 1;
        }
        true
    }

    /// The position of what is shown of the command `id`, or the number of
    /// entries where nothing is recorded.
    pub fn display_at(&self, id: &String) -> (r: usize)
        ensures
            r == display_position(self@.commands, id@, 0),
            r <= self.commands@.len(),
    {
        let ghost list = self@.commands;
        let mut i: usize = 0;
        while i < self.commands.len()
            invariant
                i <= self.commands.len(),
                list == self@.commands,
                display_position(list, id@, 0) == display_position(list, id@, i as int),
            decreases self.commands.len() - i,
        {
            assert(list[i as int].id == self.commands@[i as int].id@);
            if self.commands[i].id.eq(id) {
                return i;
            }
            i += 1;
        }
        i
    }

    /// Whether a search is going on.
    pub fn filtering(&self) -> (r: bool)
        ensures
            r == has_filter(self@.filter),
    {
        match self.filter {
            Some(q) => !q.is_empty(),
            None => false,
        }
    }

    fn counts_for(&self, id: &String) -> (r: StatusCounts)
        ensures
            r == counts_of(display_of(self@.commands, id@)),
    {
        let at = self.display_at(id);
        if at < self.commands.len() {
            let d = &self.commands[at];
            assert(self@.commands[at as int] == d@);
            StatusCounts {
                success: match &d.status {
                    CommandStatus::Success => 1,
                    _ => 0,
                },
                running: match &d.status {
                    CommandStatus::Running => 1,
                    CommandStatus::WaitingForDeps => 1,
                    _ => 0,
                },
                failure: match &d.status {
                    CommandStatus::Failure(_) => 1,
                    CommandStatus::Error(_) => 1,
                    _ => 0,
                },
                selected: if d.selected {
                    1
                } else {
                    0
                },
            }
        } else {
            StatusCounts::new()
        }
    }
}

/// The counts over the tree under a group.
pub fn count_status(group: &CommandGroup, ctx: &TreeContext<'_>) -> (r: StatusCounts)
    ensures
        r == group_counts(group@, ctx@.commands),
    decreases group,
{
    proof {
        lemma_group_view(*group);
    }
    let ghost shown = ctx@.commands;
    let mut counts = StatusCounts::new();
    let mut i: usize = 0;
    assert(group@.commands.take(0) =~= Seq::<CommandView>::empty());
    while i < group.commands.len()
        invariant
            i <= group.commands.len(),
            shown == ctx@.commands,
            group@.commands == commands_view(group.commands@),
            counts == commands_counts(group@.commands.take(i as int), shown),
        decreases group.commands.len() - i,
    {
        proof {
            let next = group@.commands.take(i + 1);
            assert(next.drop_last() =~= group@.commands.take(i as int));
            assert(next.last() == group.commands@[i as int]@);
        }
        let one = ctx.counts_for(&group.commands[i].id);
        counts.merge(&one);
        i += 1;
    }
    assert(group@.commands.take(i as int) =~= group@.commands);
    let ghost base = counts;
    let mut k: usize = 0;
    assert(group@.children.take(0) =~= Seq::<GroupView>::empty());
    while k < group.children.len()
        invariant
            k <= group.children.len(),
            shown == ctx@.commands,
            group@.children == groups_view(group.children@),
            counts == children_counts(group@.children.take(k as int), shown, base),
        decreases group.children.len() - k,
    {
        proof {
            let next = group@.children.take(k + 1);
            assert(next.drop_last() =~= group@.children.take(k as int));
            assert(next.last() == group.children@[k as int]@);
        }
        let sub = count_status(&group.children[k], ctx);
        counts.merge(&sub);
        k += 1;
    }
    assert(group@.children.take(k as int) =~= group@.children);
    counts
}

/// The depth below `depth`; the largest depth stays.
pub open spec fn next_depth(depth: usize) -> usize {
    if depth < usize::MAX {
        (depth + 1) as usize
    } else {
        depth
    }
}

/// The group is shown: no search is going on, or it matches the query.
pub open spec fn shown_group(g: GroupView, filtering: bool, query: Seq<char>) -> bool {
    !filtering || group_matches(g, query)
}

/// The command is shown: no search is going on, or it matches the query.
pub open spec fn shown_command(c: CommandView, filtering: bool, query: Seq<char>) -> bool {
    !filtering || command_matches(c, query)
}

/// How many of the groups are shown.
pub open spec fn shown_groups(gs: Seq<GroupView>, filtering: bool, query: Seq<char>) -> nat
    decreases gs.len(),
{
    if gs.len() == 0 {
        0
    } else {
        shown_groups(gs.drop_last(), filtering, query) + if shown_group(
            gs.last(),
            filtering,
            query,
        ) {
            1nat
        } else {
            0nat
        }
    }
}

/// How many of the commands are shown.
pub open spec fn shown_commands(cs: Seq<CommandView>, filtering: bool, query: Seq<char>) -> nat
    decreases cs.len(),
{
    if cs.len() == 0 {
        0
    } else {
        shown_commands(cs.drop_last(), filtering, query) + if shown_command(
            cs.last(),
            filtering,
            query,
        ) {
            1nat
        } else {
            0nat
        }
    }
}

/// The position of the last of `total` rows; zero where there is none.
pub open spec fn last_index(total: nat) -> nat {
    if total == 0 {
        0
    } else {
        (total - 1) as nat
    }
}

/// The row of a group.
pub open spec fn group_row(
    g: GroupView,
    depth: usize,
    is_last: bool,
    trail: Seq<bool>,
    ctx: ContextView,
    expanded: bool,
) -> VisibleView {
    let counts = group_counts(g, ctx.commands);
    VisibleView {
        id: g.id,
        depth,
        is_last_sibling: is_last,
        ancestor_is_last: trail,
        kind: KindView::Group {
            name: g.name,
            expanded,
            success: counts.success,
            running: counts.running,
            failure: counts.failure,
            selected: counts.selected,
            total: commands_total(g),
        },
    }
}

/// The row of a command.
pub open spec fn command_row(
    c: CommandView,
    depth: usize,
    is_last: bool,
    trail: Seq<bool>,
    ctx: ContextView,
) -> VisibleView {
    let d = display_of(ctx.commands, c.id);
    VisibleView {
        id: c.id,
        depth,
        is_last_sibling: is_last,
        ancestor_is_last: trail,
        kind: KindView::Command {
            name: c.name,
            selected: d.selected,
            status: d.status,
            duration: d.duration,
        },
    }
}

/// The query of a context; empty where it has none.
pub open spec fn query_of(filter: Option<Seq<char>>) -> Seq<char> {
    match filter {
        Some(q) => q,
        None => Seq::empty(),
    }
}

/// The visible rows of the tree under a group: the group's own row, and,
/// where it is expanded, the rows of its shown child groups, then those of
/// its shown commands. While a search is going on, a group that does not
/// match has no rows, and every group that does is expanded.
pub open spec fn flat_nodes(
    g: GroupView,
    depth: usize,
    is_last: bool,
    trail: Seq<bool>,
    ctx: ContextView,
) -> Seq<VisibleView>
    decreases g, 1int,
{
    let filtering = has_filter(ctx.filter);
    if filtering && !group_matches(g, query_of(ctx.filter)) {
        Seq::empty()
    } else {
        let expanded = filtering || expanded_of(ctx.expanded, g.id);
        let head = seq![group_row(g, depth, is_last, trail, ctx, expanded)];
        if !expanded {
            head
        } else {
            let child_trail = if depth > 0 {
                trail.push(is_last)
            } else {
                trail
            };
            let query = lowercase_of(query_of(ctx.filter));
            let groups = shown_groups(g.children, filtering, query);
            let total = groups + shown_commands(g.commands, filtering, query);
            head + child_rows(
                g.children,
                filtering,
                query,
                total,
                next_depth(depth),
                child_trail,
                ctx,
            ) + command_rows(
                g.commands,
                filtering,
                query,
                groups,
                total,
                next_depth(depth),
                child_trail,
                ctx,
            )
        }
    }
}

/// The rows of the shown groups of a list, group after group.
pub open spec fn child_rows(
    gs: Seq<GroupView>,
    filtering: bool,
    query: Seq<char>,
    total: nat,
    depth: usize,
    trail: Seq<bool>,
    ctx: ContextView,
) -> Seq<VisibleView>
    decreases gs, 0int,
{
    if gs.len() == 0 {
        Seq::empty()
    } else {
        let before = child_rows(gs.drop_last(), filtering, query, total, depth, trail, ctx);
        if shown_group(gs.last(), filtering, query) {
            before + flat_nodes(
                gs.last(),
                depth,
                shown_groups(gs.drop_last(), filtering, query) == last_index(total),
                trail,
                ctx,
            )
        } else {
            before
        }
    }
}

/// The rows of the shown commands of a list; `offset` rows stand before
/// them among their siblings.
pub open spec fn command_rows(
    cs: Seq<CommandView>,
    filtering: bool,
    query: Seq<char>,
    offset: nat,
    total: nat,
    depth: usize,
    trail: Seq<bool>,
    ctx: ContextView,
) -> Seq<VisibleView>
    decreases cs.len(),
{
    if cs.len() == 0 {
        Seq::empty()
    } else {
        let before = command_rows(cs.drop_last(), filtering, query, offset, total, depth, trail, ctx);
        if shown_command(cs.last(), filtering, query) {
            before.push(
                command_row(
                    cs.last(),
                    depth,
                    offset + shown_commands(cs.drop_last(), filtering, query) == last_index(
                        total,
                    ),
                    trail,
                    ctx,
                ),
            )
        } else {
            before
        }
    }
}

fn clone_flags(v: &Vec<bool>) -> (r: Vec<bool>)
    ensures
        r@ == v@,
{
    let mut out: Vec<bool> = Vec::new();
    let mut i: usize = 0;
    while i < v.len()
        invariant
            i <= v.len(),
            out@ == v@.take(i as int),
        decreases v.len() - i,
    {
        out.push(v[i]);
        assert(out@ =~= v@.take(i + 1));
        i += 1;
    }
    assert(out@ =~= v@);
    out
}

fn count_shown_groups(gs: &Vec<CommandGroup>, filtering: bool, query: &str) -> (r: u128)
    ensures
        r == shown_groups(groups_view(gs@), filtering, query@),
        r <= gs@.len(),
{
    let ghost all = groups_view(gs@);
    let mut n: u128 = 0;
    let mut k: usize = 0;
    assert(all.take(0) =~= Seq::<GroupView>::empty());
    while k < gs.len()
        invariant
            k <= gs.len(),
            all == groups_view(gs@),
            n == shown_groups(all.take(k as int), filtering, query@),
            n <= k,
        decreases gs.len() - k,
    {
        proof {
            let next = all.take(k + 1);
            assert(next.drop_last() =~= all.take(k as int));
            assert(next.last() == gs@[k as int]@);
        }
        if !filtering || matches_filter(&gs[k], query) {
            n += 1;
        }
        k += 1;
    }
    assert(all.take(k as int) =~= all);
    n
}

fn count_shown_commands(cs: &Vec<Command>, filtering: bool, query: &str) -> (r: u128)
    ensures
        r == shown_commands(commands_view(cs@), filtering, query@),
        r <= cs@.len(),
{
    let ghost all = commands_view(cs@);
    let mut n: u128 = 0;
    let mut k: usize = 0;
    assert(all.take(0) =~= Seq::<CommandView>::empty());
    while k < cs.len()
        invariant
            k <= cs.len(),
            all == commands_view(cs@),
            n == shown_commands(all.take(k as int), filtering, query@),
            n <= k,
        decreases cs.len() - k,
    {
        proof {
            let next = all.take(k + 1);
            assert(next.drop_last() =~= all.take(k as int));
            assert(next.last() == cs@[k as int]@);
        }
        if !filtering || command_matches_filter(&cs[k], query) {
            n += 1;
        }
        k += 1;
    }
    assert(all.take(k as int) =~= all);
    n
}

fn make_command_row(
    cmd: &Command,
    depth: usize,
    is_last: bool,
    trail: &Vec<bool>,
    ctx: &TreeContext<'_>,
) -> (r: VisibleNode)
    ensures
        r@ == command_row(cmd@, depth, is_last, trail@, ctx@),
{
    let at = ctx.display_at(&cmd.id);
    let (selected, status, duration) = if at < ctx.commands.len() {
        let d = &ctx.commands[at];
        assert(ctx@.commands[at as int] == d@);
        (
            d.selected,
            d.status.clone(),
            match &d.duration {
                Some(t) => Some(t.clone()),
                None => None,
            },
        )
    } else {
        (false, CommandStatus::Pending, None)
    };
    VisibleNode {
        id: cmd.id.clone(),
        depth,
        is_last_sibling: is_last,
        ancestor_is_last: clone_flags(trail),
        kind: NodeKind::Command { name: cmd.name.clone(), selected, status, duration },
    }
}

fn push_command_rows(
    commands: &Vec<Command>,
    filtering: bool,
    query: &str,
    offset: u128,
    total: u128,
    depth: usize,
    trail: &Vec<bool>,
    ctx: &TreeContext<'_>,
    nodes: &mut Vec<VisibleNode>,
)
    requires
        offset <= usize::MAX,
    ensures
        visible_view(final(nodes)@) == visible_view(old(nodes)@) + command_rows(
            commands_view(commands@),
            filtering,
            query@,
            offset as nat,
            total as nat,
            depth,
            trail@,
            ctx@,
        ),
{
    let ghost cmds = commands_view(commands@);
    let ghost start = visible_view(nodes@);
    let last: u128 = if total == 0 {
        0
    } else {
        total - 1
    };
    let mut placed: u128 = 0;
    let mut i: usize = 0;
    proof {
        assert(cmds.take(0) =~= Seq::<CommandView>::empty());
        assert(start =~= start + command_rows(
            cmds.take(0),
            filtering,
            query@,
            offset as nat,
            total as nat,
            depth,
            trail@,
            ctx@,
        ));
    }
    while i < commands.len()
        invariant
            i <= commands.len(),
            cmds == commands_view(commands@),
            placed == shown_commands(cmds.take(i as int), filtering, query@),
            placed <= i,
            offset <= usize::MAX,
            last == last_index(total as nat),
            visible_view(nodes@) == start + command_rows(
                cmds.take(i as int),
                filtering,
                query@,
                offset as nat,
                total as nat,
                depth,
                trail@,
                ctx@,
            ),
        decreases commands.len() - i,
    {
        proof {
            let next = cmds.take(i + 1);
            assert(next.drop_last() =~= cmds.take(i as int));
            assert(next.last() == commands@[i as int]@);
        }
        if !filtering || command_matches_filter(&commands[i], query) {
            let ghost before = visible_view(nodes@);
            let row = make_command_row(&commands[i], depth, offset + placed == last, trail, ctx);
            nodes.push(row);
            placed += 1;
            assert(visible_view(nodes@) =~= before.push(row@));
        }
        i += 1;
    }
    assert(cmds.take(i as int) =~= cmds);
}

fn push_child_rows(
    group: &CommandGroup,
    filtering: bool,
    query: &str,
    total: u128,
    depth: usize,
    trail: &Vec<bool>,
    ctx: &TreeContext<'_>,
    nodes: &mut Vec<VisibleNode>,
)
    ensures
        visible_view(final(nodes)@) == visible_view(old(nodes)@) + child_rows(
            group@.children,
            filtering,
            query@,
            total as nat,
            depth,
            trail@,
            ctx@,
        ),
    decreases group, 0int,
{
    proof {
        lemma_group_view(*group);
    }
    let ghost kids = group@.children;
    let ghost start = visible_view(nodes@);
    let last: u128 = if total == 0 {
        0
    } else {
        total - 1
    };
    let mut shown: u128 = 0;
    let mut k: usize = 0;
    proof {
        assert(kids.take(0) =~= Seq::<GroupView>::empty());
        assert(start =~= start + child_rows(
            kids.take(0),
            filtering,
            query@,
            total as nat,
            depth,
            trail@,
            ctx@,
        ));
    }
    while k < group.children.len()
        invariant
            k <= group.children.len(),
            kids == groups_view(group.children@),
            shown == shown_groups(kids.take(k as int), filtering, query@),
            shown <= k,
            last == last_index(total as nat),
            visible_view(nodes@) == start + child_rows(
                kids.take(k as int),
                filtering,
                query@,
                total as nat,
                depth,
                trail@,
                ctx@,
            ),
        decreases group.children.len() - k,
    {
        proof {
            let next = kids.take(k + 1);
            assert(next.drop_last() =~= kids.take(k as int));
            assert(next.last() == group.children@[k as int]@);
        }
        if !filtering || matches_filter(&group.children[k], query) {
            flatten_group(&group.children[k], depth, shown == last, trail, ctx, nodes);
            shown += 1;
            assert(visible_view(nodes@) =~= start + child_rows(
                kids.take(k + 1),
                filtering,
                query@,
                total as nat,
                depth,
                trail@,
                ctx@,
            ));
        }
        k += 1;
    }
    assert(kids.take(k as int) =~= kids);
}

/// Appends the visible rows of the tree under `group` to `nodes`.
pub fn flatten_group(
    group: &CommandGroup,
    depth: usize,
    is_last: bool,
    ancestor_is_last: &Vec<bool>,
    ctx: &TreeContext<'_>,
    nodes: &mut Vec<VisibleNode>,
)
    ensures
        visible_view(final(nodes)@) == visible_view(old(nodes)@) + flat_nodes(
            group@,
            depth,
            is_last,
            ancestor_is_last@,
            ctx@,
        ),
    decreases group, 1int,
{
    proof {
        lemma_group_view(*group);
    }
    let ghost start = visible_view(nodes@);
    let ghost want = flat_nodes(group@, depth, is_last, ancestor_is_last@, ctx@);
    let filtering = ctx.filtering();
    let raw: &str = match ctx.filter {
        Some(q) => q,
        None => "",
    };
    proof {
        reveal_strlit("");
        assert(raw@ =~= query_of(ctx@.filter));
    }
    if filtering && !matches_filter(group, raw) {
        assert(start =~= start + want);
        return;
    }
    let expanded = filtering || ctx.is_expanded(&group.id);
    let counts = count_status(group, ctx);
    let total_count = count_commands(group);
    let ghost head = group_row(group@, depth, is_last, ancestor_is_last@, ctx@, expanded);
    nodes.push(
        VisibleNode {
            id: group.id.clone(),
            depth,
            is_last_sibling: is_last,
            ancestor_is_last: clone_flags(ancestor_is_last),
            kind: NodeKind::Group {
                name: group.name.clone(),
                expanded,
                success: counts.success,
                running: counts.running,
                failure: counts.failure,
                selected: counts.selected,
                total: total_count,
            },
        },
    );
    assert(visible_view(nodes@) =~= start + seq![head]);
    if !expanded {
        return;
    }
    let mut child_ancestors = clone_flags(ancestor_is_last);
    if depth > 0 {
        child_ancestors.push(is_last);
    }
    let below = if depth < usize::MAX {
        depth + 1
    } else {
        depth
    };
    let query = lowercase(raw);
    let groups = count_shown_groups(&group.children, filtering, query.as_str());
    let commands = count_shown_commands(&group.commands, filtering, query.as_str());
    assert(groups <= group.children.len() && commands <= group.commands.len());
    let total = groups + commands;
    push_child_rows(group, filtering, query.as_str(), total, below, &child_ancestors, ctx, nodes);
    push_command_rows(
        &group.commands,
        filtering,
        query.as_str(),
        groups,
        total,
        below,
        &child_ancestors,
        ctx,
        nodes,
    );
    assert(visible_view(nodes@) =~= start + want);
}

/// The visible rows of the whole tree.
pub fn visible_nodes(config: &CommandGroup, ctx: &TreeContext<'_>) -> (r: Vec<VisibleNode>)
    ensures
        visible_view(r@) == flat_nodes(config@, 0, true, Seq::empty(), ctx@),
{
    let mut nodes: Vec<VisibleNode> = Vec::new();
    let trail: Vec<bool> = Vec::new();
    flatten_group(config, 0, true, &trail, ctx, &mut nodes);
    assert(visible_view(nodes@) =~= flat_nodes(config@, 0, true, Seq::empty(), ctx@));
    nodes
}

/// The first command of the tree with the identifier `id`, in the order in
/// which the tree lists its commands: a group's own before those of its
/// child groups.
pub open spec fn found_command(g: GroupView, id: Seq<char>) -> Option<CommandView> {
    let all = flat_commands(g);
    let at = position_of(command_ids(all), id);
    if 0 <= at < all.len() {
        Some(all[at])
    } else {
        None
    }
}

/// Finds a command by its identifier.
pub fn find_command_in_group(group: &CommandGroup, id: &str) -> (r: Option<Command>)
    ensures
        match r {
            Some(c) => found_command(group@, id@) == Some(c@),
            None => found_command(group@, id@) is None,
        },
{
    let all = group.all_commands();
    let ids = ids_of(&all);
    let key = String::from_str(id);
    let at = find_text(&ids, &key);
    proof {
        lemma_position_of(command_ids(refs_view(all@)), id@);
    }
    if at < all.len() {
        Some(all[at].clone())
    } else {
        None
    }
}

/// The groups of a tree in walking order: the group, then the groups under
/// each child in turn.
pub open spec fn flat_groups(g: GroupView) -> Seq<GroupView>
    decreases g, 1int,
{
    seq![g] + flat_groups_of(g.children)
}

/// The groups under a list of groups, group after group.
pub open spec fn flat_groups_of(gs: Seq<GroupView>) -> Seq<GroupView>
    decreases gs, 0int,
{
    if gs.len() == 0 {
        Seq::empty()
    } else {
        flat_groups_of(gs.drop_last()) + flat_groups(gs.last())
    }
}

/// `found` is the first group of `groups` with the identifier `id`.
pub open spec fn first_group_with(groups: Seq<GroupView>, id: Seq<char>, found: Option<GroupView>) -> bool {
    match found {
        Some(g) => exists|at: int|
            0 <= at < groups.len() && #[trigger] groups[at] == g && g.id == id && forall|k: int|
                0 <= k < at ==> (#[trigger] groups[k]).id != id,
        None => forall|k: int| 0 <= k < groups.len() ==> (#[trigger] groups[k]).id != id,
    }
}

proof fn lemma_first_in_concat(
    a: Seq<GroupView>,
    b: Seq<GroupView>,
    id: Seq<char>,
    found: Option<GroupView>,
)
    requires
        first_group_with(a, id, None),
        first_group_with(b, id, found),
    ensures
        first_group_with(a + b, id, found),
{
    let all = a + b;
    match found {
        Some(g) => {
            let at = choose|at: int|
                0 <= at < b.len() && #[trigger] b[at] == g && g.id == id && forall|k: int|
                    0 <= k < at ==> (#[trigger] b[k]).id != id;
            assert(all[a.len() + at] == g);
            assert forall|k: int| 0 <= k < a.len() + at implies (#[trigger] all[k]).id != id by {
                if k < a.len() {
                    assert(a[k].id != id);
                } else {
                    assert(b[k - a.len()].id != id);
                }
            }
        },
        None => {
            assert forall|k: int| 0 <= k < all.len() implies (#[trigger] all[k]).id != id by {
                if k < a.len() {
                    assert(a[k].id != id);
                } else {
                    assert(b[k - a.len()].id != id);
                }
            }
        },
    }
}

proof fn lemma_first_in_prefix(
    a: Seq<GroupView>,
    b: Seq<GroupView>,
    id: Seq<char>,
    g: GroupView,
)
    requires
        first_group_with(a, id, Some(g)),
    ensures
        first_group_with(a + b, id, Some(g)),
{
    let all = a + b;
    let at = choose|at: int|
        0 <= at < a.len() && #[trigger] a[at] == g && g.id == id && forall|k: int|
            0 <= k < at ==> (#[trigger] a[k]).id != id;
    assert(all[at] == g);
    assert forall|k: int| 0 <= k < at implies (#[trigger] all[k]).id != id by {
        assert(a[k].id != id);
    }
}

/// Finds a group by its identifier: the first one in walking order.
pub fn find_group_in_group<'a>(group: &'a CommandGroup, id: &str) -> (r: Option<&'a CommandGroup>)
    ensures
        first_group_with(
            flat_groups(group@),
            id@,
            match r {
                Some(g) => Some(g@),
                None => None,
            },
        ),
    decreases group,
{
    proof {
        lemma_group_view(*group);
    }
    let key = String::from_str(id);
    if group.id.eq(&key) {
        assert(flat_groups(group@)[0] == group@);
        return Some(group);
    }
    let ghost head = seq![group@];
    let ghost kids = group@.children;
    let mut k: usize = 0;
    proof {
        assert(kids.take(0) =~= Seq::<GroupView>::empty());
        assert(first_group_with(head + flat_groups_of(kids.take(0)), id@, None)) by {
            assert(head + flat_groups_of(kids.take(0)) =~= head);
            assert(head[0].id != id@);
        }
    }
    while k < group.children.len()
        invariant
            k <= group.children.len(),
            kids == groups_view(group.children@),
            kids == group@.children,
            head == seq![group@],
            first_group_with(head + flat_groups_of(kids.take(k as int)), id@, None),
        decreases group.children.len() - k,
    {
        proof {
            let next = kids.take(k + 1);
            assert(next.drop_last() =~= kids.take(k as int));
            assert(next.last() == group.children@[k as int]@);
        }
        let sub = find_group_in_group(&group.children[k], id);
        proof {
            let before = head + flat_groups_of(kids.take(k as int));
            let part = flat_groups(group.children@[k as int]@);
            let shown = match sub {
                Some(g) => Some(g@),
                None => None,
            };
            lemma_first_in_concat(before, part, id@, shown);
            assert(before + part =~= head + flat_groups_of(kids.take(k + 1)));
        }
        match sub {
            Some(g) => {
                proof {
                    lemma_groups_prefix_of(kids, k + 1);
                    let rest = choose|rest: Seq<GroupView>|
                        #[trigger] splits(
                            flat_groups_of(kids),
                            flat_groups_of(kids.take(k + 1)),
                            rest,
                        );
                    lemma_first_in_prefix(
                        head + flat_groups_of(kids.take(k + 1)),
                        rest,
                        id@,
                        g@,
                    );
                    assert(head + flat_groups_of(kids.take(k + 1)) + rest =~= flat_groups(
                        group@,
                    ));
                }
                return Some(g);
            },
            None => {},
        }
        k += 1;
    }
    assert(kids.take(k as int) =~= kids);
    None
}

spec fn splits(whole: Seq<GroupView>, part: Seq<GroupView>, rest: Seq<GroupView>) -> bool {
    whole == part + rest
}

proof fn lemma_groups_prefix_of(gs: Seq<GroupView>, n: int)
    requires
        0 <= n <= gs.len(),
    ensures
        exists|rest: Seq<GroupView>|
            #[trigger] splits(flat_groups_of(gs), flat_groups_of(gs.take(n)), rest),
    decreases gs.len() - n,
{
    if n < gs.len() {
        lemma_groups_prefix_of(gs, n + 1);
        let rest = choose|rest: Seq<GroupView>|
            #[trigger] splits(flat_groups_of(gs), flat_groups_of(gs.take(n + 1)), rest);
        let next = gs.take(n + 1);
        assert(next.drop_last() =~= gs.take(n));
        let more = flat_groups(next.last()) + rest;
        assert(flat_groups_of(gs) =~= flat_groups_of(gs.take(n)) + more);
        assert(splits(flat_groups_of(gs), flat_groups_of(gs.take(n)), more));
    } else {
        assert(gs.take(n) =~= gs);
        assert(flat_groups_of(gs) =~= flat_groups_of(gs.take(n)) + Seq::<GroupView>::empty());
        assert(splits(flat_groups_of(gs), flat_groups_of(gs.take(n)), Seq::<GroupView>::empty()));
    }
}

/// Some command of the list is shown as selected.
pub open spec fn any_selected(cs: Seq<CommandView>, shown: Seq<DisplayView>) -> bool {
    exists|i: int| 0 <= i < cs.len() && display_of(shown, (#[trigger] cs[i]).id).selected
}

/// The identifiers of the groups below the root that hold no selected
/// command, in walking order.
pub open spec fn inactive_groups(g: GroupView, shown: Seq<DisplayView>) -> Seq<Seq<char>>
    decreases g, 1int,
{
    inactive_among(g.children, shown)
}

/// The same, of a list of groups and the groups below them.
pub open spec fn inactive_among(gs: Seq<GroupView>, shown: Seq<DisplayView>) -> Seq<Seq<char>>
    decreases gs, 0int,
{
    if gs.len() == 0 {
        Seq::empty()
    } else {
        inactive_among(gs.drop_last(), shown) + (if any_selected(
            flat_commands(gs.last()),
            shown,
        ) {
            Seq::empty()
        } else {
            seq![gs.last().id]
        }) + inactive_groups(gs.last(), shown)
    }
}

fn holds_selected(group: &CommandGroup, ctx: &TreeContext<'_>) -> (r: bool)
    ensures
        r == any_selected(flat_commands(group@), ctx@.commands),
{
    let all = group.all_commands();
    let ghost cs = refs_view(all@);
    let mut i: usize = 0;
    while i < all.len()
        invariant
            i <= all.len(),
            cs == refs_view(all@),
            cs == flat_commands(group@),
            forall|k: int| 0 <= k < i ==> !display_of(ctx@.commands, (#[trigger] cs[k]).id).selected,
        decreases all.len() - i,
    {
        let at = ctx.display_at(&all[i].id);
        assert(cs[i as int].id == all@[i as int]@.id);
        if at < ctx.commands.len() {
            assert(ctx@.commands[at as int] == ctx.commands@[at as int]@);
            if ctx.commands[at].selected {
                assert(display_of(ctx@.commands, cs[i as int].id).selected);
                assert(any_selected(cs, ctx@.commands));
                return true;
            }
        }
        i += 1;
    }
    false
}

/// Collects the identifiers of the groups below the root that hold no
/// selected command.
pub fn collect_inactive_groups(group: &CommandGroup, ctx: &TreeContext<'_>, out: &mut Vec<String>)
    ensures
        strs(final(out)@) == strs(old(out)@) + inactive_groups(group@, ctx@.commands),
    decreases group,
{
    proof {
        lemma_group_view(*group);
    }
    let ghost start = strs(out@);
    let ghost kids = group@.children;
    let ghost shown = ctx@.commands;
    let mut k: usize = 0;
    proof {
        assert(kids.take(0) =~= Seq::<GroupView>::empty());
        assert(start =~= start + inactive_among(kids.take(0), shown));
    }
    while k < group.children.len()
        invariant
            k <= group.children.len(),
            kids == groups_view(group.children@),
            shown == ctx@.commands,
            strs(out@) == start + inactive_among(kids.take(k as int), shown),
        decreases group.children.len() - k,
    {
        proof {
            let next = kids.take(k + 1);
            assert(next.drop_last() =~= kids.take(k as int));
            assert(next.last() == group.children@[k as int]@);
        }
        let child = &group.children[k];
        let ghost before = strs(out@);
        if !holds_selected(child, ctx) {
            out.push(child.id.clone());
            assert(strs(out@) =~= before + seq![child@.id]);
        } else {
            assert(strs(out@) =~= before + Seq::<Seq<char>>::empty());
        }
        collect_inactive_groups(child, ctx, out);
        assert(strs(out@) =~= start + inactive_among(kids.take(k + 1), shown));
        k += 1;
    }
    assert(kids.take(k as int) =~= kids);
}

/// The models of the entries that say which groups are expanded.
pub open spec fn expanded_view(list: Seq<(String, bool)>) -> Seq<(Seq<char>, bool)> {
    Seq::new(list.len(), |i: int| (list[i].0@, list[i].1))
}

/// The entries after the group `id` was expanded or collapsed: its first
/// entry says so now, and it gets one at the end where it had none.
pub open spec fn expanded_with(list: Seq<(Seq<char>, bool)>, id: Seq<char>, value: bool) -> Seq<
    (Seq<char>, bool),
> {
    let at = expanded_position(list, id, 0);
    if 0 <= at < list.len() {
        list.update(at, (id, value))
    } else {
        list.push((id, value))
    }
}

proof fn lemma_expanded_position(list: Seq<(Seq<char>, bool)>, id: Seq<char>, from: int)
    requires
        0 <= from <= list.len(),
    ensures
        from <= expanded_position(list, id, from) <= list.len(),
        expanded_position(list, id, from) < list.len() ==> list[expanded_position(
            list,
            id,
            from,
        )].0 == id,
        forall|k: int| from <= k < expanded_position(list, id, from) ==> (#[trigger] list[k]).0 != id,
    decreases list.len() - from,
{
    if from < list.len() && list[from].0 != id {
        lemma_expanded_position(list, id, from + 1);
    }
}

proof fn lemma_expanded_found(list: Seq<(Seq<char>, bool)>, id: Seq<char>, from: int, at: int)
    requires
        0 <= from <= at <= list.len(),
        at < list.len() ==> list[at].0 == id,
        forall|k: int| from <= k < at ==> (#[trigger] list[k]).0 != id,
    ensures
        expanded_position(list, id, from) == at,
    decreases at - from,
{
    if from < at {
        assert(list[from].0 != id);
        lemma_expanded_found(list, id, from + 1, at);
    }
}

/// After the group `id` was expanded or collapsed, it reads as that, and
/// every other group reads as before.
pub proof fn lemma_expanded_with(
    list: Seq<(Seq<char>, bool)>,
    id: Seq<char>,
    value: bool,
    other: Seq<char>,
)
    ensures
        expanded_of(expanded_with(list, id, value), id) == value,
        other != id ==> expanded_of(expanded_with(list, id, value), other) == expanded_of(
            list,
            other,
        ),
{
    let next = expanded_with(list, id, value);
    let at = expanded_position(list, id, 0);
    lemma_expanded_position(list, id, 0);
    assert forall|k: int| 0 <= k < at implies (#[trigger] next[k]).0 != id by {
        assert(next[k] == list[k]);
    }
    lemma_expanded_found(next, id, 0, at);
    if other != id {
        let was = expanded_position(list, other, 0);
        lemma_expanded_position(list, other, 0);
        if was < list.len() {
            assert(was != at);
            assert(next[was] == list[was]);
            assert forall|k: int| 0 <= k < was implies (#[trigger] next[k]).0 != other by {
                if k != at {
                    assert(next[k] == list[k]);
                }
            }
            lemma_expanded_found(next, other, 0, was);
        } else {
            assert forall|k: int| 0 <= k < next.len() implies (#[trigger] next[k]).0 != other by {
                if k != at && k < list.len() {
                    assert(next[k] == list[k]);
                }
            }
            lemma_expanded_found(next, other, 0, next.len() as int);
        }
    }
}

/// Expands or collapses the group `id`.
pub fn set_expanded(list: &mut Vec<(String, bool)>, id: &str, value: bool)
    ensures
        expanded_view(final(list)@) == expanded_with(expanded_view(old(list)@), id@, value),
{
    let ghost before = expanded_view(list@);
    let mut i: usize = 0;
    while i < list.len()
        invariant
            i <= list.len(),
            list@ == old(list)@,
            before == expanded_view(list@),
            forall|k: int| 0 <= k < i ==> (#[trigger] before[k]).0 != id@,
        decreases list.len() - i,
    {
        assert(before[i as int].0 == list@[i as int].0@);
        if crate::text::same_str(&list[i].0, id) {
            proof {
                lemma_expanded_found(before, id@, 0, i as int);
            }
            list.set(i, (String::from_str(id), value));
            assert(expanded_view(list@) =~= expanded_with(before, id@, value));
            return ;
        }
        i += 1;
    }
    proof {
        lemma_expanded_found(before, id@, 0, i as int);
    }
    list.push((String::from_str(id), value));
    assert(expanded_view(list@) =~= expanded_with(before, id@, value));
}

} // verus!
