//! The rows of the command tree, and how each reads as text.

use vstd::prelude::*;
use vstd::string::*;
use crate::text::{decimal, decimal_digits};
use crate::theme::Tone;
use crate::tui::app::{CommandStatus, StatusView};

verus! {

/// Mathematical model of [`NodeKind`].
#[allow(inconsistent_fields)]
pub enum KindView {
    Group {
        name: Seq<char>,
        expanded: bool,
        success: u16,
        running: u16,
        failure: u16,
        selected: u16,
        total: u16,
    },
    Command { name: Seq<char>, selected: bool, status: StatusView, duration: Option<Seq<char>> },
}

/// The type and display data of a tree node.
#[derive(Debug)]
#[allow(inconsistent_fields)]
pub enum NodeKind {
    Group {
        name: String,
        expanded: bool,
        success: u16,
        running: u16,
        failure: u16,
        selected: u16,
        total: u16,
    },
    Command {
        name: String,
        selected: bool,
        status: CommandStatus,
        /// How long the command has run, as it is shown; `None` where it
        /// has not run.
        duration: Option<String>,
    },
}

impl View for NodeKind {
    type V = KindView;

    open spec fn view(&self) -> KindView {
        match self {
            NodeKind::Group { name, expanded, success, running, failure, selected, total } => {
                KindView::Group {
                    name: name@,
                    expanded: *expanded,
                    success: *success,
                    running: *running,
                    failure: *failure,
                    selected: *selected,
                    total: *total,
                }
            },
            NodeKind::Command { name, selected, status, duration } => KindView::Command {
                name: name@,
                selected: *selected,
                status: status@,
                duration: match duration {
                    Some(d) => Some(d@),
                    None => None,
                },
            },
        }
    }
}

impl Clone for NodeKind {
    fn clone(&self) -> (r: Self)
        ensures
            r@ == self@,
    {
        match self {
            NodeKind::Group { name, expanded, success, running, failure, selected, total } => {
                NodeKind::Group {
                    name: name.clone(),
                    expanded: *expanded,
                    success: *success,
                    running: *running,
                    failure: *failure,
                    selected: *selected,
                    total: *total,
                }
            },
            NodeKind::Command { name, selected, status, duration } => NodeKind::Command {
                name: name.clone(),
                selected: *selected,
                status: status.clone(),
                duration: match duration {
                    Some(d) => Some(d.clone()),
                    None => None,
                },
            },
        }
    }
}

/// Mathematical model of [`VisibleNode`].
pub struct VisibleView {
    pub id: Seq<char>,
    pub depth: usize,
    pub is_last_sibling: bool,
    pub ancestor_is_last: Seq<bool>,
    pub kind: KindView,
}

/// A flattened tree node ready for rendering.
#[derive(Debug)]
pub struct VisibleNode {
    pub id: String,
    pub depth: usize,
    pub is_last_sibling: bool,
    /// For each ancestor below the root, whether it was the last of its
    /// siblings: a blank is drawn under a last one, a line under the others.
    pub ancestor_is_last: Vec<bool>,
    pub kind: NodeKind,
}

impl View for VisibleNode {
    type V = VisibleView;

    open spec fn view(&self) -> VisibleView {
        VisibleView {
            id: self.id@,
            depth: self.depth,
            is_last_sibling: self.is_last_sibling,
            ancestor_is_last: self.ancestor_is_last@,
            kind: self.kind@,
        }
    }
}

impl Clone for VisibleNode {
    fn clone(&self) -> (r: Self)
        ensures
            r@ == self@,
    {
        let mut trail: Vec<bool> = Vec::new();
        let mut i: usize = 0;
        while i < self.ancestor_is_last.len()
            invariant
                i <= self.ancestor_is_last.len(),
                trail@ == self.ancestor_is_last@.take(i as int),
            decreases self.ancestor_is_last.len() - i,
        {
            trail.push(self.ancestor_is_last[i]);
            assert(trail@ =~= self.ancestor_is_last@.take(i + 1));
            i += 1;
        }
        assert(trail@ =~= self.ancestor_is_last@);
        VisibleNode {
            id: self.id.clone(),
            depth: self.depth,
            is_last_sibling: self.is_last_sibling,
            ancestor_is_last: trail,
            kind: self.kind.clone(),
        }
    }
}

/// The models of a list of visible nodes.
pub open spec fn visible_view(v: Seq<VisibleNode>) -> Seq<VisibleView> {
    Seq::new(v.len(), |i: int| v[i]@)
}

/// What the tree pane draws: the visible nodes, the cursor, the first row
/// shown and the row under the pointer.
#[derive(Debug)]
pub struct TreeWidget<'a> {
    pub nodes: &'a Vec<VisibleNode>,
    pub cursor: usize,
    pub scroll_offset: usize,
    pub hover_row: Option<usize>,
}

impl<'a> TreeWidget<'a> {
    /// A widget over `nodes`.
    pub fn new(
        nodes: &'a Vec<VisibleNode>,
        cursor: usize,
        scroll_offset: usize,
        hover_row: Option<usize>,
    ) -> (r: Self)
        ensures
            r.nodes == nodes,
            r.cursor == cursor,
            r.scroll_offset == scroll_offset,
            r.hover_row == hover_row,
    {
        Self { nodes, cursor, scroll_offset, hover_row }
    }

    /// The rows that a pane of `height` rows shows: the position of the
    /// first, and how many.
    pub fn window(&self, height: usize) -> (r: (usize, usize))
        ensures
            r.0 == if self.scroll_offset < self.nodes@.len() {
                self.scroll_offset
            } else {
                self.nodes@.len() as usize
            },
            r.1 == if self.nodes@.len() - r.0 < height {
                self.nodes@.len() - r.0
            } else {
                height as int
            },
    {
        let first = if self.scroll_offset < self.nodes.len() {
            self.scroll_offset
        } else {
            self.nodes.len()
        };
        let left = self.nodes.len() - first;
        (
            first,
            if left < height {
                left
            } else {
                height
            },
        )
    }

    /// Whether the row `index` is drawn as the cursor row.
    pub fn is_highlighted(&self, index: usize) -> (r: bool)
        ensures
            r == (index == self.cursor),
    {
        index == self.cursor
    }

    /// Whether the row `index` is drawn as hovered: under the pointer and
    /// not the cursor row.
    pub fn is_hovered(&self, index: usize) -> (r: bool)
        ensures
            r == (self.hover_row == Some(index) && index != self.cursor),
    {
        match self.hover_row {
            Some(row) => row == index && index != self.cursor,
            None => false,
        }
    }
}

/// The guides in front of a node: for each ancestor a blank where it was
/// the last of its siblings and a line where it was not.
pub open spec fn trail_text(trail: Seq<bool>) -> Seq<char>
    decreases trail.len(),
{
    if trail.len() == 0 {
        Seq::empty()
    } else {
        trail_text(trail.drop_last()) + if trail.last() {
            "  "@
        } else {
            "│ "@
        }
    }
}

/// The guides and the branch in front of a node. The root has no branch.
pub open spec fn prefix_text(node: VisibleView) -> Seq<char> {
    trail_text(node.ancestor_is_last) + if node.depth > 0 {
        if node.is_last_sibling {
            "└─"@
        } else {
            "├─"@
        }
    } else {
        Seq::empty()
    }
}

/// The mark of a status behind a command's name.
pub open spec fn status_mark(status: StatusView) -> Seq<char> {
    match status {
        StatusView::Success => " ✔"@,
        StatusView::Failure(_) => " ✘"@,
        StatusView::Running => " ⧗"@,
        StatusView::Error(_) => " ⚠"@,
        StatusView::WaitingForDeps => " ◌"@,
        StatusView::Pending => Seq::empty(),
    }
}

/// What stands behind the prefix of a node.
pub open spec fn content_text(kind: KindView) -> Seq<char> {
    match kind {
        KindView::Group { name, expanded, selected, total, .. } => (if expanded {
            "▼ "@
        } else {
            "▶ "@
        }) + name + " ("@ + decimal_digits(selected as nat) + "/"@ + decimal_digits(total as nat)
            + ")"@,
        KindView::Command { name, selected, status, duration } => (if selected {
            "● "@
        } else {
            "○ "@
        }) + name + status_mark(status) + match duration {
            Some(d) => d,
            None => Seq::empty(),
        },
    }
}

/// The plain text of a node: prefix and content.
pub open spec fn node_text(node: VisibleView) -> Seq<char> {
    prefix_text(node) + content_text(node.kind)
}

/// Builds the tree guides in front of a node, without styling.
pub fn build_prefix(node: &VisibleNode) -> (r: String)
    ensures
        r@ == prefix_text(node@),
{
    let mut prefix = String::new();
    let mut i: usize = 0;
    let ghost trail = node.ancestor_is_last@;
    assert(trail.take(0) =~= Seq::<bool>::empty());
    while i < node.ancestor_is_last.len()
        invariant
            i <= node.ancestor_is_last.len(),
            trail == node.ancestor_is_last@,
            prefix@ == trail_text(trail.take(i as int)),
        decreases node.ancestor_is_last.len() - i,
    {
        proof {
            let next = trail.take(i + 1);
            assert(next.drop_last() =~= trail.take(i as int));
            assert(next.last() == trail[i as int]);
        }
        if node.ancestor_is_last[i] {
            prefix.append("  ");
        } else {
            prefix.append("│ ");
        }
        i += 1;
    }
    assert(trail.take(i as int) =~= trail);
    if node.depth > 0 {
        if node.is_last_sibling {
            prefix.append("└─");
        } else {
            prefix.append("├─");
        }
    } else {
        assert(prefix@ =~= prefix@ + Seq::<char>::empty());
    }
    prefix
}

/// Builds the plain text of a node: prefix and content, without styling.
pub fn render_node_text(node: &VisibleNode) -> (r: String)
    ensures
        r@ == node_text(node@),
{
    let mut text = build_prefix(node);
    let ghost start = text@;
    match &node.kind {
        NodeKind::Group { name, expanded, selected, total, .. } => {
            if *expanded {
                text.append("▼ ");
            } else {
                text.append("▶ ");
            }
            text.append(name.as_str());
            text.append(" (");
            text.append(decimal(*selected as u64).as_str());
            text.append("/");
            text.append(decimal(*total as u64).as_str());
            text.append(")");
            assert(text@ =~= start + content_text(node@.kind));
        },
        NodeKind::Command { name, selected, status, duration } => {
            if *selected {
                text.append("● ");
            } else {
                text.append("○ ");
            }
            text.append(name.as_str());
            let ghost named = text@;
            match status {
                CommandStatus::Success => {
                    text.append(" ✔");
                },
                CommandStatus::Failure(_) => {
                    text.append(" ✘");
                },
                CommandStatus::Running => {
                    text.append(" ⧗");
                },
                CommandStatus::Error(_) => {
                    text.append(" ⚠");
                },
                CommandStatus::WaitingForDeps => {
                    text.append(" ◌");
                },
                CommandStatus::Pending => {
                    assert(text@ =~= named + Seq::<char>::empty());
                },
            }
            let ghost marked = text@;
            assert(marked == named + status_mark(status@));
            match duration {
                Some(d) => {
                    text.append(d.as_str());
                },
                None => {
                    assert(text@ =~= marked + Seq::<char>::empty());
                },
            }
            assert(text@ =~= start + content_text(node@.kind));
        },
    }
    text
}

/// Mathematical model of [`Span`].
pub struct SpanView {
    pub text: Seq<char>,
    pub tone: Tone,
    pub underlined: bool,
}

/// A piece of a row, with the colour it is drawn in.
#[derive(Debug)]
pub struct Span {
    pub text: String,
    pub tone: Tone,
    pub underlined: bool,
}

impl View for Span {
    type V = SpanView;

    open spec fn view(&self) -> SpanView {
        SpanView { text: self.text@, tone: self.tone, underlined: self.underlined }
    }
}

/// The models of a list of spans.
pub open spec fn spans_view(v: Seq<Span>) -> Seq<SpanView> {
    Seq::new(v.len(), |i: int| v[i]@)
}

/// A span that is not underlined.
pub open spec fn toned(text: Seq<char>, tone: Tone) -> SpanView {
    SpanView { text, tone, underlined: false }
}

/// The spans of the guides in front of a node, one for each ancestor.
pub open spec fn trail_spans(trail: Seq<bool>) -> Seq<SpanView>
    decreases trail.len(),
{
    if trail.len() == 0 {
        Seq::empty()
    } else {
        trail_spans(trail.drop_last()).push(
            toned(
                if trail.last() {
                    "  "@
                } else {
                    "│ "@
                },
                Tone::Tree,
            ),
        )
    }
}

/// The spans of the guides and the branch in front of a node.
pub open spec fn prefix_spans(node: VisibleView) -> Seq<SpanView> {
    if node.depth > 0 {
        trail_spans(node.ancestor_is_last).push(
            toned(
                if node.is_last_sibling {
                    "└─"@
                } else {
                    "├─"@
                },
                Tone::Tree,
            ),
        )
    } else {
        trail_spans(node.ancestor_is_last)
    }
}

/// How the name of a row is drawn: accented and underlined under the
/// cursor, white under the pointer, plain elsewhere.
pub open spec fn name_style(highlighted: bool, hovered: bool) -> (Tone, bool) {
    if highlighted {
        (Tone::Accent, true)
    } else if hovered {
        (Tone::White, false)
    } else {
        (Tone::Plain, false)
    }
}

/// `parts` with one more count, where it is not zero, behind a bar where
/// it is not the first.
pub open spec fn with_count(parts: Seq<SpanView>, count: u16, tone: Tone) -> Seq<SpanView> {
    if count == 0 {
        parts
    } else if parts.len() == 0 {
        parts.push(toned(decimal_digits(count as nat), tone))
    } else {
        parts.push(toned("|"@, Tone::Dim)).push(toned(decimal_digits(count as nat), tone))
    }
}

/// The counts of a group that are not zero: succeeded, running, failed.
pub open spec fn count_parts(success: u16, running: u16, failure: u16) -> Seq<SpanView> {
    with_count(
        with_count(with_count(Seq::empty(), success, Tone::Success), running, Tone::Running),
        failure,
        Tone::Failure,
    )
}

/// The counts of a group in brackets; nothing where all are zero.
pub open spec fn count_spans(success: u16, running: u16, failure: u16) -> Seq<SpanView> {
    let parts = count_parts(success, running, failure);
    if parts.len() == 0 {
        Seq::empty()
    } else {
        (seq![toned(" ["@, Tone::Dim)] + parts).push(toned("]"@, Tone::Dim))
    }
}

/// The span of a status behind a command's name, where it has one.
pub open spec fn status_spans(status: StatusView) -> Seq<SpanView> {
    match status {
        StatusView::Pending => Seq::empty(),
        StatusView::Running => seq![toned(" ⧗"@, Tone::Running)],
        StatusView::Success => seq![toned(" ✔"@, Tone::Success)],
        StatusView::Failure(_) => seq![toned(" ✘"@, Tone::Failure)],
        StatusView::Error(_) => seq![toned(" ⚠"@, Tone::Failure)],
        StatusView::WaitingForDeps => seq![toned(" ◌"@, Tone::Running)],
    }
}

/// The spans behind the prefix of a node.
pub open spec fn content_spans(kind: KindView, highlighted: bool, hovered: bool) -> Seq<SpanView> {
    let (tone, underlined) = name_style(highlighted, hovered);
    match kind {
        KindView::Group { name, expanded, success, running, failure, selected, total } => (seq![
            SpanView {
                text: if expanded {
                    "▼ "@
                } else {
                    "▶ "@
                },
                tone,
                underlined,
            },
            SpanView { text: name, tone, underlined },
        ] + count_spans(success, running, failure)).push(
            toned(
                " ("@ + decimal_digits(selected as nat) + "/"@ + decimal_digits(total as nat)
                    + ")"@,
                Tone::Dim,
            ),
        ),
        KindView::Command { name, selected, status, duration } => seq![
            SpanView {
                text: if selected {
                    "● "@
                } else {
                    "○ "@
                },
                tone: if selected {
                    Tone::Accent
                } else {
                    Tone::Dim
                },
                underlined,
            },
            SpanView { text: name, tone, underlined },
        ] + status_spans(status) + match duration {
            Some(d) => seq![toned(d, Tone::Dim)],
            None => Seq::empty(),
        },
    }
}

/// The spans of a row: prefix and content.
pub open spec fn node_spans(node: VisibleView, highlighted: bool, hovered: bool) -> Seq<SpanView> {
    prefix_spans(node) + content_spans(node.kind, highlighted, hovered)
}

/// The text of a list of spans, one after the other.
pub open spec fn spans_text(spans: Seq<SpanView>) -> Seq<char>
    decreases spans.len(),
{
    if spans.len() == 0 {
        Seq::empty()
    } else {
        spans_text(spans.drop_last()) + spans.last().text
    }
}

fn span(text: &str, tone: Tone, underlined: bool) -> (r: Span)
    ensures
        r@ == (SpanView { text: text@, tone, underlined }),
{
    Span { text: String::from_str(text), tone, underlined }
}

fn push_span(spans: &mut Vec<Span>, text: &str, tone: Tone, underlined: bool)
    ensures
        spans_view(final(spans)@) == spans_view(old(spans)@).push(
            SpanView { text: text@, tone, underlined },
        ),
{
    spans.push(span(text, tone, underlined));
    assert(spans_view(spans@) =~= spans_view(old(spans)@).push(
        SpanView { text: text@, tone, underlined },
    ));
}

fn push_count(spans: &mut Vec<Span>, first: bool, count: u16, tone: Tone) -> (r: bool)
    ensures
        r == (first && count == 0),
        spans_view(final(spans)@) == if count == 0 {
            spans_view(old(spans)@)
        } else if first {
            spans_view(old(spans)@).push(toned(decimal_digits(count as nat), tone))
        } else {
            spans_view(old(spans)@).push(toned("|"@, Tone::Dim)).push(
                toned(decimal_digits(count as nat), tone),
            )
        },
{
    if count == 0 {
        return first;
    }
    if !first {
        push_span(spans, "|", Tone::Dim, false);
    }
    push_span(spans, decimal(count as u64).as_str(), tone, false);
    false
}

fn push_counts(spans: &mut Vec<Span>, success: u16, running: u16, failure: u16)
    ensures
        spans_view(final(spans)@) == spans_view(old(spans)@) + count_spans(
            success,
            running,
            failure,
        ),
{
    if success == 0 && running == 0 && failure == 0 {
        assert(spans_view(spans@) =~= spans_view(spans@) + Seq::<SpanView>::empty());
        return ;
    }
    let ghost before = spans_view(spans@);
    push_span(spans, " [", Tone::Dim, false);
    let ghost opened = spans_view(spans@);
    let first = push_count(spans, true, success, Tone::Success);
    let ghost a = with_count(Seq::empty(), success, Tone::Success);
    assert(spans_view(spans@) =~= opened + a);
    assert(first == (a.len() == 0));
    let first = push_count(spans, first, running, Tone::Running);
    let ghost b = with_count(a, running, Tone::Running);
    assert(spans_view(spans@) =~= opened + b);
    assert(first == (b.len() == 0));
    let first = push_count(spans, first, failure, Tone::Failure);
    let ghost c = with_count(b, failure, Tone::Failure);
    assert(spans_view(spans@) =~= opened + c);
    assert(c.len() > 0);
    push_span(spans, "]", Tone::Dim, false);
    assert(spans_view(spans@) =~= before + count_spans(success, running, failure));
}

fn prefix_of(node: &VisibleNode) -> (r: Vec<Span>)
    ensures
        spans_view(r@) == prefix_spans(node@),
{
    let mut spans: Vec<Span> = Vec::new();
    let mut i: usize = 0;
    let ghost trail = node.ancestor_is_last@;
    assert(trail.take(0) =~= Seq::<bool>::empty());
    assert(spans_view(spans@) =~= Seq::<SpanView>::empty());
    while i < node.ancestor_is_last.len()
        invariant
            i <= node.ancestor_is_last.len(),
            trail == node.ancestor_is_last@,
            spans_view(spans@) == trail_spans(trail.take(i as int)),
        decreases node.ancestor_is_last.len() - i,
    {
        proof {
            let next = trail.take(i + 1);
            assert(next.drop_last() =~= trail.take(i as int));
            assert(next.last() == trail[i as int]);
        }
        if node.ancestor_is_last[i] {
            push_span(&mut spans, "  ", Tone::Tree, false);
        } else {
            push_span(&mut spans, "│ ", Tone::Tree, false);
        }
        i += 1;
    }
    assert(trail.take(i as int) =~= trail);
    if node.depth > 0 {
        if node.is_last_sibling {
            push_span(&mut spans, "└─", Tone::Tree, false);
        } else {
            push_span(&mut spans, "├─", Tone::Tree, false);
        }
    }
    spans
}

/// Builds the spans of a row: the guides in the colour of the tree, the
/// name in the colour of the cursor or the pointer, and behind it the
/// counts of a group or the status and the duration of a command.
pub fn styled_node(node: &VisibleNode, highlighted: bool, hovered: bool) -> (r: Vec<Span>)
    ensures
        spans_view(r@) == node_spans(node@, highlighted, hovered),
{
    let mut spans = prefix_of(node);
    let ghost start = spans_view(spans@);
    let (tone, underlined) = if highlighted {
        (Tone::Accent, true)
    } else if hovered {
        (Tone::White, false)
    } else {
        (Tone::Plain, false)
    };
    match &node.kind {
        NodeKind::Group { name, expanded, success, running, failure, selected, total } => {
            if *expanded {
                push_span(&mut spans, "▼ ", tone, underlined);
            } else {
                push_span(&mut spans, "▶ ", tone, underlined);
            }
            push_span(&mut spans, name.as_str(), tone, underlined);
            push_counts(&mut spans, *success, *running, *failure);
            let mut count = String::from_str(" (");
            count.append(decimal(*selected as u64).as_str());
            count.append("/");
            count.append(decimal(*total as u64).as_str());
            count.append(")");
            push_span(&mut spans, count.as_str(), Tone::Dim, false);
            assert(spans_view(spans@) =~= start + content_spans(node@.kind, highlighted, hovered));
        },
        NodeKind::Command { name, selected, status, duration } => {
            if *selected {
                push_span(&mut spans, "● ", Tone::Accent, underlined);
            } else {
                push_span(&mut spans, "○ ", Tone::Dim, underlined);
            }
            push_span(&mut spans, name.as_str(), tone, underlined);
            let ghost named = spans_view(spans@);
            match status {
                CommandStatus::Pending => {
                    assert(named =~= named + status_spans(status@));
                },
                CommandStatus::Running => {
                    push_span(&mut spans, " ⧗", Tone::Running, false);
                },
                CommandStatus::Success => {
                    push_span(&mut spans, " ✔", Tone::Success, false);
                },
                CommandStatus::Failure(_) => {
                    push_span(&mut spans, " ✘", Tone::Failure, false);
                },
                CommandStatus::Error(_) => {
                    push_span(&mut spans, " ⚠", Tone::Failure, false);
                },
                CommandStatus::WaitingForDeps => {
                    push_span(&mut spans, " ◌", Tone::Running, false);
                },
            }
            assert(spans_view(spans@) =~= named + status_spans(status@));
            match duration {
                Some(d) => {
                    push_span(&mut spans, d.as_str(), Tone::Dim, false);
                },
                None => {},
            }
            assert(spans_view(spans@) =~= start + content_spans(node@.kind, highlighted, hovered));
        },
    }
    spans
}

impl<'a> TreeWidget<'a> {
    /// The spans of the row `index`.
    pub fn row(&self, index: usize) -> (r: Vec<Span>)
        requires
            index < self.nodes@.len(),
        ensures
            spans_view(r@) == node_spans(
                self.nodes@[index as int]@,
                index == self.cursor,
                self.hover_row == Some(index) && index != self.cursor,
            ),
    {
        styled_node(&self.nodes[index], self.is_highlighted(index), self.is_hovered(index))
    }
}

/// The text of two lists of spans, one after the other, is the text of the
/// first and then that of the second.
pub proof fn lemma_spans_text_add(a: Seq<SpanView>, b: Seq<SpanView>)
    ensures
        spans_text(a + b) == spans_text(a) + spans_text(b),
    decreases b.len(),
{
    if b.len() == 0 {
        assert(a + b =~= a);
        assert(spans_text(a) + spans_text(b) =~= spans_text(a));
    } else {
        lemma_spans_text_add(a, b.drop_last());
        assert((a + b).drop_last() =~= a + b.drop_last());
        assert((a + b).last() == b.last());
        assert(spans_text(a + b) =~= spans_text(a) + spans_text(b));
    }
}

proof fn lemma_trail_text(trail: Seq<bool>)
    ensures
        spans_text(trail_spans(trail)) == trail_text(trail),
    decreases trail.len(),
{
    if trail.len() > 0 {
        lemma_trail_text(trail.drop_last());
        let s = trail_spans(trail);
        assert(s.drop_last() =~= trail_spans(trail.drop_last()));
    }
}

proof fn lemma_text_of_one(s: SpanView)
    ensures
        spans_text(seq![s]) == s.text,
{
    let one = seq![s];
    assert(one.drop_last() =~= Seq::<SpanView>::empty());
    assert(one.last() == s);
    assert(spans_text(one.drop_last()) =~= Seq::<char>::empty());
    assert(spans_text(one) =~= s.text);
}

proof fn lemma_text_of_push(a: Seq<SpanView>, s: SpanView)
    ensures
        spans_text(a.push(s)) == spans_text(a) + s.text,
{
    assert(a.push(s).drop_last() =~= a);
}

proof fn lemma_text_of_two(a: SpanView, b: SpanView)
    ensures
        spans_text(seq![a, b]) == a.text + b.text,
{
    lemma_text_of_one(a);
    lemma_text_of_push(seq![a], b);
    assert(seq![a, b] =~= seq![a].push(b));
}

proof fn lemma_status_text(status: StatusView)
    ensures
        spans_text(status_spans(status)) == status_mark(status),
{
    let spans = status_spans(status);
    if spans.len() > 0 {
        lemma_text_of_one(spans[0]);
        assert(spans =~= seq![spans[0]]);
    }
}

proof fn lemma_prefix_text(node: VisibleView)
    ensures
        spans_text(prefix_spans(node)) == prefix_text(node),
{
    lemma_trail_text(node.ancestor_is_last);
    if node.depth > 0 {
        lemma_text_of_push(trail_spans(node.ancestor_is_last), prefix_spans(node).last());
    } else {
        assert(prefix_text(node) =~= trail_text(node.ancestor_is_last));
    }
}

proof fn lemma_group_text(
    name: Seq<char>,
    expanded: bool,
    selected: u16,
    total: u16,
    highlighted: bool,
    hovered: bool,
)
    ensures
        spans_text(
            content_spans(
                KindView::Group {
                    name,
                    expanded,
                    success: 0,
                    running: 0,
                    failure: 0,
                    selected,
                    total,
                },
                highlighted,
                hovered,
            ),
        ) == content_text(
            KindView::Group { name, expanded, success: 0, running: 0, failure: 0, selected, total },
        ),
{
    let kind = KindView::Group {
        name,
        expanded,
        success: 0,
        running: 0,
        failure: 0,
        selected,
        total,
    };
    let content = content_spans(kind, highlighted, hovered);
    let (tone, underlined) = name_style(highlighted, hovered);
    let arrow = SpanView {
        text: if expanded {
            "▼ "@
        } else {
            "▶ "@
        },
        tone,
        underlined,
    };
    let named = SpanView { text: name, tone, underlined };
    let head = seq![arrow, named];
    lemma_text_of_two(arrow, named);
    assert(count_spans(0, 0, 0) =~= Seq::<SpanView>::empty());
    assert(head + count_spans(0, 0, 0) =~= head);
    let count = toned(
        " ("@ + decimal_digits(selected as nat) + "/"@ + decimal_digits(total as nat) + ")"@,
        Tone::Dim,
    );
    assert(content == head.push(count));
    lemma_text_of_push(head, count);
    assert(spans_text(content) =~= content_text(kind));
}

proof fn lemma_command_text(
    name: Seq<char>,
    selected: bool,
    status: StatusView,
    duration: Option<Seq<char>>,
    highlighted: bool,
    hovered: bool,
)
    ensures
        spans_text(
            content_spans(
                KindView::Command { name, selected, status, duration },
                highlighted,
                hovered,
            ),
        ) == content_text(KindView::Command { name, selected, status, duration }),
{
    let kind = KindView::Command { name, selected, status, duration };
    let content = content_spans(kind, highlighted, hovered);
    let (tone, underlined) = name_style(highlighted, hovered);
    let mark = SpanView {
        text: if selected {
            "● "@
        } else {
            "○ "@
        },
        tone: if selected {
            Tone::Accent
        } else {
            Tone::Dim
        },
        underlined,
    };
    let named = SpanView { text: name, tone, underlined };
    let head = seq![mark, named];
    lemma_text_of_two(mark, named);
    let tail = match duration {
        Some(d) => seq![toned(d, Tone::Dim)],
        None => Seq::empty(),
    };
    assert(content == head + status_spans(status) + tail);
    lemma_spans_text_add(head + status_spans(status), tail);
    lemma_spans_text_add(head, status_spans(status));
    lemma_status_text(status);
    if duration is Some {
        lemma_text_of_one(tail[0]);
        assert(tail =~= seq![tail[0]]);
    }
    assert(spans_text(content) =~= content_text(kind));
}

/// The spans of a row read as its plain text, but for the counts of a
/// group in brackets, which the plain text leaves out.
pub proof fn lemma_spans_read_as_text(node: VisibleView, highlighted: bool, hovered: bool)
    requires
        node.kind matches KindView::Group { success, running, failure, .. } ==> success == 0
            && running == 0 && failure == 0,
    ensures
        spans_text(node_spans(node, highlighted, hovered)) == node_text(node),
{
    lemma_spans_text_add(prefix_spans(node), content_spans(node.kind, highlighted, hovered));
    lemma_prefix_text(node);
    match node.kind {
        KindView::Group { name, expanded, success, running, failure, selected, total } => {
            lemma_group_text(name, expanded, selected, total, highlighted, hovered);
        },
        KindView::Command { name, selected, status, duration } => {
            lemma_command_text(name, selected, status, duration, highlighted, hovered);
        },
    }
}

} // verus!
