//! The toolbar: which shortcuts it offers and where each one lies.

use vstd::prelude::*;
use vstd::string::*;
use crate::text::{concat3, decimal, decimal_digits};
use crate::tui::app::Focus;

verus! {

/// What a toolbar shortcut does.
#[derive(Debug, Clone, Copy, PartialEq, Eq, Structural)]
pub enum ToolbarAction {
    RunSelected,
    ToggleSpace,
    Run,
    Stop,
    Clear,
    GitSelect,
    ToggleFullscreen,
    FocusTerminal,
    Quit,
    BackToTree,
    ToggleLogs,
    Search,
    ClearSearch,
    AcceptSearch,
}

/// The columns that a shortcut occupies on the toolbar, and what it does.
#[derive(Debug, Clone, Copy, PartialEq, Eq, Structural)]
pub struct ToolbarRegion {
    pub x_start: u16,
    pub x_end: u16,
    pub action: ToolbarAction,
}

/// Cached toolbar layout from the last render.
#[derive(Debug)]
pub struct ToolbarCache {
    /// The regions of the shortcuts.
    pub regions: Vec<ToolbarRegion>,
    /// The row of the toolbar.
    pub y: u16,
    /// The shortcut under the pointer.
    pub hover: Option<usize>,
}

impl Default for ToolbarCache {
    fn default() -> (r: Self)
        ensures
            r.regions@.len() == 0,
            r.y == u16::MAX,
            r.hover is None,
    {
        Self { regions: Vec::new(), y: u16::MAX, hover: None }
    }
}

/// The first region of `regions` that holds `column`.
pub open spec fn region_at(regions: Seq<ToolbarRegion>, column: u16, from: int) -> Option<int>
    decreases regions.len() - from,
{
    if from < 0 || from >= regions.len() {
        None
    } else if regions[from].x_start <= column && column < regions[from].x_end {
        Some(from)
    } else {
        region_at(regions, column, from + 1)
    }
}

impl ToolbarCache {
    /// The shortcut at `column`: the first whose region holds the column.
    pub fn hit(&self, column: u16) -> (r: Option<usize>)
        ensures
            match r {
                Some(i) => region_at(self.regions@, column, 0) == Some(i as int) && i
                    < self.regions@.len(),
                None => region_at(self.regions@, column, 0) is None,
            },
    {
        let mut i: usize = 0;
        while i < self.regions.len()
            invariant
                i <= self.regions.len(),
                region_at(self.regions@, column, 0) == region_at(self.regions@, column, i as int),
            decreases self.regions.len() - i,
        {
            if column >= self.regions[i].x_start && column < self.regions[i].x_end {
                return Some(i);
            }
            i += 1;
        }
        None
    }
}

/// Mathematical model of [`Shortcut`].
pub struct ShortcutView {
    pub key: Seq<char>,
    pub desc: Seq<char>,
    pub action: ToolbarAction,
}

/// A key and what it does, as the toolbar shows it.
#[derive(Debug)]
pub struct Shortcut {
    pub key: &'static str,
    pub desc: String,
    pub action: ToolbarAction,
}

impl View for Shortcut {
    type V = ShortcutView;

    open spec fn view(&self) -> ShortcutView {
        ShortcutView { key: self.key@, desc: self.desc@, action: self.action }
    }
}

impl Shortcut {
    /// A shortcut for `key` that does `action`.
    pub fn new(key: &'static str, desc: &str, action: ToolbarAction) -> (r: Self)
        ensures
            r@ == (ShortcutView { key: key@, desc: desc@, action }),
            r.key == key,
    {
        Self { key, desc: String::from_str(desc), action }
    }

    /// How many columns the shortcut occupies: the key with a blank on
    /// each side, a blank, and the description, each counted in bytes.
    pub open spec fn span(&self) -> int {
        3 + self.key.len() + (vstd::utf8::encode_utf8(self.desc@).len() as usize)
    }

    /// The width that this shortcut occupies on the toolbar.
    pub fn width(&self) -> (r: u128)
        ensures
            r == self.span(),
    {
        3 + self.key.len() as u128 + self.desc.as_str().len() as u128
    }
}

/// The models of a list of shortcuts.
pub open spec fn shortcuts_view(v: Seq<Shortcut>) -> Seq<ShortcutView> {
    Seq::new(v.len(), |i: int| v[i]@)
}

/// What the cursor of the tree is on.
#[derive(Debug, Clone, Copy, PartialEq, Eq, Structural)]
pub enum CursorKind {
    /// Nothing.
    Nothing,
    /// A command, selected or not, running or not.
    Command { selected: bool, running: bool },
    /// A group, expanded or not.
    Group { expanded: bool },
}

/// What the search bar is doing.
#[derive(Debug, Clone, Copy, PartialEq, Eq, Structural)]
pub enum SearchKind {
    Inactive,
    Editing,
    Active,
}

/// What the toolbar reads of the state of the interface.
#[derive(Debug, Clone, Copy, PartialEq, Eq, Structural)]
pub struct ToolbarInput {
    pub fullscreen: bool,
    pub focus: Focus,
    pub cursor: CursorKind,
    /// How many commands are selected.
    pub selected_count: usize,
    /// Whether there is an active terminal whose command is interactive.
    pub terminal_available: bool,
    pub search: SearchKind,
    pub show_logs: bool,
}

/// A shortcut with the given key, description and action.
pub open spec fn shortcut(key: Seq<char>, desc: Seq<char>, action: ToolbarAction) -> ShortcutView {
    ShortcutView { key, desc, action }
}

/// The shortcuts for the cursor of the tree.
pub open spec fn cursor_shortcuts(cursor: CursorKind) -> Seq<ShortcutView> {
    match cursor {
        CursorKind::Command { selected, running } => seq![
            shortcut(
                "SPACE"@,
                if selected {
                    "Deselect"@
                } else {
                    "Select"@
                },
                ToolbarAction::ToggleSpace,
            ),
            shortcut("R"@, "Run"@, ToolbarAction::Run),
        ] + (if running {
            seq![shortcut("S"@, "Stop"@, ToolbarAction::Stop)]
        } else {
            Seq::empty()
        }) + seq![shortcut("C"@, "Clear"@, ToolbarAction::Clear)],
        CursorKind::Group { expanded } => seq![
            shortcut(
                "SPACE"@,
                if expanded {
                    "Collapse"@
                } else {
                    "Expand"@
                },
                ToolbarAction::ToggleSpace,
            ),
        ],
        CursorKind::Nothing => Seq::empty(),
    }
}

/// The shortcuts for the search bar.
pub open spec fn search_shortcuts(search: SearchKind) -> Seq<ShortcutView> {
    match search {
        SearchKind::Editing => seq![
            shortcut("ESC"@, "Clear"@, ToolbarAction::ClearSearch),
            shortcut("ENTER"@, "Accept"@, ToolbarAction::AcceptSearch),
        ],
        SearchKind::Active => seq![
            shortcut("/"@, "Edit filter"@, ToolbarAction::Search),
            shortcut("ESC"@, "Clear filter"@, ToolbarAction::ClearSearch),
        ],
        SearchKind::Inactive => seq![shortcut("/"@, "Search"@, ToolbarAction::Search)],
    }
}

/// The shortcuts of the toolbar, in order.
pub open spec fn shortcuts_for(input: ToolbarInput) -> Seq<ShortcutView> {
    if input.fullscreen {
        seq![
            shortcut("^R"@, "Exit fullscreen"@, ToolbarAction::ToggleFullscreen),
            shortcut("ESC"@, "Back to tree"@, ToolbarAction::BackToTree),
            shortcut("^C"@, "Quit"@, ToolbarAction::Quit),
        ]
    } else if input.focus == Focus::Terminal {
        seq![
            shortcut("ESC"@, "Back to tree"@, ToolbarAction::BackToTree),
            shortcut("^R"@, "Fullscreen"@, ToolbarAction::ToggleFullscreen),
            shortcut("^C"@, "Quit"@, ToolbarAction::Quit),
        ]
    } else {
        (if input.selected_count > 0 {
            seq![
                shortcut(
                    "ENTER"@,
                    "Run selected ("@ + decimal_digits(input.selected_count as nat) + ")"@,
                    ToolbarAction::RunSelected,
                ),
            ]
        } else {
            Seq::empty()
        }) + cursor_shortcuts(input.cursor) + seq![
            shortcut("G"@, "Git select"@, ToolbarAction::GitSelect),
            shortcut("^R"@, "Fullscreen"@, ToolbarAction::ToggleFullscreen),
        ] + (if input.terminal_available {
            seq![shortcut("TAB"@, "Terminal"@, ToolbarAction::FocusTerminal)]
        } else {
            Seq::empty()
        }) + search_shortcuts(input.search) + seq![
            shortcut(
                "L"@,
                if input.show_logs {
                    "Hide logs"@
                } else {
                    "Logs"@
                },
                ToolbarAction::ToggleLogs,
            ),
            shortcut("Q"@, "Quit"@, ToolbarAction::Quit),
        ]
    }
}

fn offer(out: &mut Vec<Shortcut>, key: &'static str, desc: &str, action: ToolbarAction)
    ensures
        shortcuts_view(final(out)@) == shortcuts_view(old(out)@).push(
            shortcut(key@, desc@, action),
        ),
{
    let ghost before = shortcuts_view(out@);
    out.push(Shortcut::new(key, desc, action));
    assert(shortcuts_view(out@) =~= before.push(shortcut(key@, desc@, action)));
}

fn offer_for_cursor(out: &mut Vec<Shortcut>, cursor: CursorKind)
    ensures
        shortcuts_view(final(out)@) == shortcuts_view(old(out)@) + cursor_shortcuts(cursor),
{
    let ghost first = shortcuts_view(out@);
    match cursor {
        CursorKind::Command { selected, running } => {
            offer(
                out,
                "SPACE",
                if selected {
                    "Deselect"
                } else {
                    "Select"
                },
                ToolbarAction::ToggleSpace,
            );
            offer(out, "R", "Run", ToolbarAction::Run);
            if running {
                offer(out, "S", "Stop", ToolbarAction::Stop);
            }
            offer(out, "C", "Clear", ToolbarAction::Clear);
        },
        CursorKind::Group { expanded } => {
            offer(
                out,
                "SPACE",
                if expanded {
                    "Collapse"
                } else {
                    "Expand"
                },
                ToolbarAction::ToggleSpace,
            );
        },
        CursorKind::Nothing => {},
    }
    assert(shortcuts_view(out@) =~= first + cursor_shortcuts(cursor));
}

fn offer_for_search(out: &mut Vec<Shortcut>, search: SearchKind)
    ensures
        shortcuts_view(final(out)@) == shortcuts_view(old(out)@) + search_shortcuts(search),
{
    let ghost first = shortcuts_view(out@);
    match search {
        SearchKind::Editing => {
            offer(out, "ESC", "Clear", ToolbarAction::ClearSearch);
            offer(out, "ENTER", "Accept", ToolbarAction::AcceptSearch);
        },
        SearchKind::Active => {
            offer(out, "/", "Edit filter", ToolbarAction::Search);
            offer(out, "ESC", "Clear filter", ToolbarAction::ClearSearch);
        },
        SearchKind::Inactive => {
            offer(out, "/", "Search", ToolbarAction::Search);
        },
    }
    assert(shortcuts_view(out@) =~= first + search_shortcuts(search));
}

fn away_from_tree(input: &ToolbarInput) -> (r: Vec<Shortcut>)
    requires
        input.fullscreen || input.focus == Focus::Terminal,
    ensures
        shortcuts_view(r@) == shortcuts_for(*input),
{
    let mut out: Vec<Shortcut> = Vec::new();
    assert(shortcuts_view(out@) =~= Seq::<ShortcutView>::empty());
    if input.fullscreen {
        offer(&mut out, "^R", "Exit fullscreen", ToolbarAction::ToggleFullscreen);
        offer(&mut out, "ESC", "Back to tree", ToolbarAction::BackToTree);
        offer(&mut out, "^C", "Quit", ToolbarAction::Quit);
    } else {
        offer(&mut out, "ESC", "Back to tree", ToolbarAction::BackToTree);
        offer(&mut out, "^R", "Fullscreen", ToolbarAction::ToggleFullscreen);
        offer(&mut out, "^C", "Quit", ToolbarAction::Quit);
    }
    assert(shortcuts_view(out@) =~= shortcuts_for(*input));
    out
}

/// The shortcuts that the toolbar offers in the given state.
pub fn get_shortcuts(input: &ToolbarInput) -> (r: Vec<Shortcut>)
    ensures
        shortcuts_view(r@) == shortcuts_for(*input),
{
    if input.fullscreen {
        return away_from_tree(input);
    }
    match input.focus {
        Focus::Terminal => {
            return away_from_tree(input);
        },
        Focus::Tree => {},
    }
    let mut out: Vec<Shortcut> = Vec::new();
    assert(shortcuts_view(out@) =~= Seq::<ShortcutView>::empty());
    if input.selected_count > 0 {
        let count = decimal(input.selected_count as u64);
        let desc = concat3("Run selected (", count.as_str(), ")");
        offer(&mut out, "ENTER", desc.as_str(), ToolbarAction::RunSelected);
    }
    let ghost a = shortcuts_view(out@);
    offer_for_cursor(&mut out, input.cursor);
    offer(&mut out, "G", "Git select", ToolbarAction::GitSelect);
    offer(&mut out, "^R", "Fullscreen", ToolbarAction::ToggleFullscreen);
    if input.terminal_available {
        offer(&mut out, "TAB", "Terminal", ToolbarAction::FocusTerminal);
    }
    let ghost b = shortcuts_view(out@);
    offer_for_search(&mut out, input.search);
    let ghost c = shortcuts_view(out@);
    offer(
        &mut out,
        "L",
        if input.show_logs {
            "Hide logs"
        } else {
            "Logs"
        },
        ToolbarAction::ToggleLogs,
    );
    offer(&mut out, "Q", "Quit", ToolbarAction::Quit);
    assert(shortcuts_view(out@) =~= shortcuts_for(*input));
    out
}

/// The width of the blanks between two shortcuts.
pub const SEPARATOR_WIDTH: u16 = 2;

/// The column after the first `k` shortcuts: their spans, and two columns
/// between each two of them.
pub open spec fn end_of(spans: Seq<int>, k: int) -> int
    decreases k,
{
    if k <= 0 {
        0
    } else {
        end_of(spans, k - 1) + (if k > 1 {
            2int
        } else {
            0int
        }) + spans[k - 1]
    }
}

/// How many shortcuts are shown, counting on from `k`: as many, from the
/// first, as fit into `max` columns.
pub open spec fn fitting(spans: Seq<int>, max: int, k: int) -> int
    decreases spans.len() - k,
{
    if k < 0 || k >= spans.len() {
        k
    } else if end_of(spans, k + 1) > max {
        k
    } else {
        fitting(spans, max, k + 1)
    }
}

/// The spans of a list of shortcuts.
pub open spec fn spans_of(v: Seq<Shortcut>) -> Seq<int> {
    Seq::new(v.len(), |i: int| v[i].span())
}

/// The region of the shortcut at `i`: it starts after the shortcuts before
/// it and the blanks that separate it from them.
pub open spec fn region_of(v: Seq<Shortcut>, i: int) -> ToolbarRegion {
    ToolbarRegion {
        x_start: (end_of(spans_of(v), i + 1) - v[i].span()) as u16,
        x_end: end_of(spans_of(v), i + 1) as u16,
        action: v[i].action,
    }
}

/// How a toolbar of a given width is laid out.
#[derive(Debug)]
pub struct ToolbarLayout {
    /// How many of the shortcuts are shown.
    pub shown: usize,
    /// The region of each shortcut shown.
    pub regions: Vec<ToolbarRegion>,
    /// How many columns are left after the last one.
    pub padding: u16,
}

/// Lays the shortcuts out on a toolbar of `width` columns: as many, from
/// the first, as fit, each with its region, and what is left as padding.
pub fn build_toolbar_line(shortcuts: &Vec<Shortcut>, width: u16) -> (r: ToolbarLayout)
    ensures
        r.shown == fitting(spans_of(shortcuts@), width as int, 0),
        r.regions@.len() == r.shown,
        forall|i: int| 0 <= i < r.shown ==> #[trigger] r.regions@[i] == region_of(shortcuts@, i),
        r.padding == width - end_of(spans_of(shortcuts@), r.shown as int),
{
    let ghost spans = spans_of(shortcuts@);
    let max = width as u128;
    let mut regions: Vec<ToolbarRegion> = Vec::new();
    let mut x: u128 = 0;
    let mut i: usize = 0;
    while i < shortcuts.len()
        invariant
            i <= shortcuts.len(),
            spans == spans_of(shortcuts@),
            max == width,
            x == end_of(spans, i as int),
            x <= max,
            fitting(spans, max as int, 0) == fitting(spans, max as int, i as int),
            regions@.len() == i,
            forall|k: int| 0 <= k < i ==> #[trigger] regions@[k] == region_of(shortcuts@, k),
        decreases shortcuts.len() - i,
    {
        let sep: u128 = if i > 0 {
            SEPARATOR_WIDTH as u128
        } else {
            0
        };
        let w = shortcuts[i].width();
        assert(spans[i as int] == w);
        let needed = sep + w;
        if x + needed > max {
            return ToolbarLayout { shown: i, regions, padding: (max - x) as u16 };
        }
        let x_start = (x + sep) as u16;
        x = x + needed;
        regions.push(ToolbarRegion { x_start, x_end: x as u16, action: shortcuts[i].action });
        i += 1;
    }
    ToolbarLayout { shown: i, regions, padding: (max - x) as u16 }
}

} // verus!
