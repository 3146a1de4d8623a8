//! The context menu: what it offers, where it opens, how its cursor moves.

use vstd::prelude::*;
use vstd::string::*;
use crate::tui::app::{CommandStatus, StatusView};

verus! {

/// A rectangle of the screen, in cells.
#[derive(Debug, Clone, Copy, PartialEq, Eq, Structural)]
pub struct Rect {
    pub x: u16,
    pub y: u16,
    pub width: u16,
    pub height: u16,
}

impl Rect {
    /// The rectangle at `x`, `y` with the given width and height.
    pub fn new(x: u16, y: u16, width: u16, height: u16) -> (r: Self)
        ensures
            r == (Rect { x, y, width, height }),
    {
        Rect { x, y, width, height }
    }

    /// The first column to the right of the rectangle, kept within range.
    pub fn right(&self) -> (r: u16)
        ensures
            r == if self.x + self.width > u16::MAX {
                u16::MAX as int
            } else {
                self.x + self.width
            },
    {
        if self.width > u16::MAX - self.x {
            u16::MAX
        } else {
            self.x + self.width
        }
    }

    /// The first row below the rectangle, kept within range.
    pub fn bottom(&self) -> (r: u16)
        ensures
            r == if self.y + self.height > u16::MAX {
                u16::MAX as int
            } else {
                self.y + self.height
            },
    {
        if self.height > u16::MAX - self.y {
            u16::MAX
        } else {
            self.y + self.height
        }
    }

    /// Whether the cell at `column`, `row` lies in the rectangle.
    pub fn contains(&self, column: u16, row: u16) -> (r: bool)
        ensures
            r == (self.x <= column && column < self.x + self.width && self.y <= row && row
                < self.y + self.height),
    {
        column >= self.x && column - self.x < self.width && row >= self.y && row - self.y
            < self.height
    }
}

impl Default for Rect {
    fn default() -> (r: Self)
        ensures
            r == (Rect { x: 0, y: 0, width: 0, height: 0 }),
    {
        Rect { x: 0, y: 0, width: 0, height: 0 }
    }
}

/// What the context menu was opened on.
#[derive(Debug)]
#[allow(inconsistent_fields)]
pub enum ContextMenuTarget {
    Group { id: String, expanded: bool, selected: u16, total: u16 },
    Command { id: String, selected: bool, status: CommandStatus },
    Terminal,
}

/// Actions that can be triggered from the context menu.
#[derive(Debug, Clone, Copy, PartialEq, Eq, Structural)]
pub enum ContextMenuAction {
    Expand,
    Collapse,
    SelectAll,
    DeselectAll,
    RunSelected,
    Select,
    Deselect,
    Run,
    Restart,
    Stop,
    Clear,
    ScrollToTop,
    ScrollToBottom,
}

/// A single item in the context menu.
#[derive(Debug, Clone, Copy)]
pub struct ContextMenuItem {
    pub label: &'static str,
    pub hint: &'static str,
    pub action: ContextMenuAction,
    pub enabled: bool,
}

/// An item with the given label, hint, action and state.
pub open spec fn item(
    label: &'static str,
    hint: &'static str,
    action: ContextMenuAction,
    enabled: bool,
) -> ContextMenuItem {
    ContextMenuItem { label, hint, action, enabled }
}

/// The menu of a group.
pub open spec fn group_menu(expanded: bool, selected: u16, total: u16) -> Seq<ContextMenuItem> {
    seq![
        if expanded {
            item("Collapse", "h", ContextMenuAction::Collapse, true)
        } else {
            item("Expand", "l", ContextMenuAction::Expand, true)
        },
        if selected == total && total > 0 {
            item("Deselect all", "Space", ContextMenuAction::DeselectAll, true)
        } else {
            item("Select all", "Space", ContextMenuAction::SelectAll, true)
        },
        item("Run group", "r", ContextMenuAction::Run, true),
        item("Run selected", "", ContextMenuAction::RunSelected, selected > 0),
    ]
}

/// The menu of a command.
pub open spec fn command_menu(selected: bool, status: StatusView) -> Seq<ContextMenuItem> {
    let is_running = status is Running;
    let has_finished = status is Success || status is Failure || status is Error;
    seq![
        if selected {
            item("Deselect", "Space", ContextMenuAction::Deselect, true)
        } else {
            item("Select", "Space", ContextMenuAction::Select, true)
        },
        item("Run", "r", ContextMenuAction::Run, !is_running),
        item("Restart", "", ContextMenuAction::Restart, has_finished || is_running),
        item("Stop", "s", ContextMenuAction::Stop, is_running),
        item("Clear", "c", ContextMenuAction::Clear, true),
    ]
}

/// The menu of the terminal pane.
pub open spec fn terminal_menu(
    has_scrollback: bool,
    is_scrolled: bool,
    status: Option<StatusView>,
) -> Seq<ContextMenuItem> {
    match status {
        Some(s) => seq![
            item("Scroll to top", "", ContextMenuAction::ScrollToTop, has_scrollback),
            item("Scroll to bottom", "", ContextMenuAction::ScrollToBottom, is_scrolled),
            item("Restart", "r", ContextMenuAction::Restart, true),
            item("Stop", "s", ContextMenuAction::Stop, s is Running),
            item("Clear", "c", ContextMenuAction::Clear, true),
        ],
        None => seq![
            item("Run", "r", ContextMenuAction::Run, true),
            item("Clear", "c", ContextMenuAction::Clear, false),
        ],
    }
}

/// The items of the menu of a group with `selected` of `total` commands
/// selected.
pub fn build_group_menu(expanded: bool, selected: u16, total: u16) -> (r: Vec<ContextMenuItem>)
    ensures
        r@ == group_menu(expanded, selected, total),
{
    let all_selected = selected == total && total > 0;
    let mut items: Vec<ContextMenuItem> = Vec::new();
    items.push(
        if expanded {
            ContextMenuItem {
                label: "Collapse",
                hint: "h",
                action: ContextMenuAction::Collapse,
                enabled: true,
            }
        } else {
            ContextMenuItem {
                label: "Expand",
                hint: "l",
                action: ContextMenuAction::Expand,
                enabled: true,
            }
        },
    );
    items.push(
        if all_selected {
            ContextMenuItem {
                label: "Deselect all",
                hint: "Space",
                action: ContextMenuAction::DeselectAll,
                enabled: true,
            }
        } else {
            ContextMenuItem {
                label: "Select all",
                hint: "Space",
                action: ContextMenuAction::SelectAll,
                enabled: true,
            }
        },
    );
    items.push(
        ContextMenuItem {
            label: "Run group",
            hint: "r",
            action: ContextMenuAction::Run,
            enabled: true,
        },
    );
    items.push(
        ContextMenuItem {
            label: "Run selected",
            hint: "",
            action: ContextMenuAction::RunSelected,
            enabled: selected > 0,
        },
    );
    assert(items@ =~= group_menu(expanded, selected, total));
    items
}

/// The items of the menu of a command.
pub fn build_command_menu(selected: bool, status: &CommandStatus) -> (r: Vec<ContextMenuItem>)
    ensures
        r@ == command_menu(selected, status@),
{
    let is_running = status.is_running();
    let has_finished = status.has_finished();
    let mut items: Vec<ContextMenuItem> = Vec::new();
    items.push(
        if selected {
            ContextMenuItem {
                label: "Deselect",
                hint: "Space",
                action: ContextMenuAction::Deselect,
                enabled: true,
            }
        } else {
            ContextMenuItem {
                label: "Select",
                hint: "Space",
                action: ContextMenuAction::Select,
                enabled: true,
            }
        },
    );
    items.push(
        ContextMenuItem {
            label: "Run",
            hint: "r",
            action: ContextMenuAction::Run,
            enabled: !is_running,
        },
    );
    items.push(
        ContextMenuItem {
            label: "Restart",
            hint: "",
            action: ContextMenuAction::Restart,
            enabled: has_finished || is_running,
        },
    );
    items.push(
        ContextMenuItem {
            label: "Stop",
            hint: "s",
            action: ContextMenuAction::Stop,
            enabled: is_running,
        },
    );
    items.push(
        ContextMenuItem {
            label: "Clear",
            hint: "c",
            action: ContextMenuAction::Clear,
            enabled: true,
        },
    );
    assert(items@ =~= command_menu(selected, status@));
    items
}

/// The items of the menu of the terminal pane, for the process with the
/// given status, where there is one.
pub fn build_terminal_menu(
    has_scrollback: bool,
    is_scrolled: bool,
    status: Option<&CommandStatus>,
) -> (r: Vec<ContextMenuItem>)
    ensures
        r@ == terminal_menu(
            has_scrollback,
            is_scrolled,
            match status {
                Some(s) => Some(s@),
                None => None,
            },
        ),
{
    let mut items: Vec<ContextMenuItem> = Vec::new();
    match status {
        Some(s) => {
            let is_running = s.is_running();
            items.push(
                ContextMenuItem {
                    label: "Scroll to top",
                    hint: "",
                    action: ContextMenuAction::ScrollToTop,
                    enabled: has_scrollback,
                },
            );
            items.push(
                ContextMenuItem {
                    label: "Scroll to bottom",
                    hint: "",
                    action: ContextMenuAction::ScrollToBottom,
                    enabled: is_scrolled,
                },
            );
            items.push(
                ContextMenuItem {
                    label: "Restart",
                    hint: "r",
                    action: ContextMenuAction::Restart,
                    enabled: true,
                },
            );
            items.push(
                ContextMenuItem {
                    label: "Stop",
                    hint: "s",
                    action: ContextMenuAction::Stop,
                    enabled: is_running,
                },
            );
            items.push(
                ContextMenuItem {
                    label: "Clear",
                    hint: "c",
                    action: ContextMenuAction::Clear,
                    enabled: true,
                },
            );
            assert(items@ =~= terminal_menu(has_scrollback, is_scrolled, Some(s@)));
        },
        None => {
            items.push(
                ContextMenuItem {
                    label: "Run",
                    hint: "r",
                    action: ContextMenuAction::Run,
                    enabled: true,
                },
            );
            items.push(
                ContextMenuItem {
                    label: "Clear",
                    hint: "c",
                    action: ContextMenuAction::Clear,
                    enabled: false,
                },
            );
            assert(items@ =~= terminal_menu(has_scrollback, is_scrolled, None));
        },
    }
    items
}

/// How many cells an item needs: its label, and its hint with two cells
/// before it where it has one.
pub open spec fn item_span(it: ContextMenuItem) -> int {
    it.label.len() + if it.hint.len() == 0 {
        0int
    } else {
        2 + it.hint.len()
    }
}

/// The largest span among the first `upto` items.
pub open spec fn widest(items: Seq<ContextMenuItem>, upto: int) -> int
    decreases upto,
{
    if upto <= 0 {
        0
    } else if item_span(items[upto - 1]) > widest(items, upto - 1) {
        item_span(items[upto - 1])
    } else {
        widest(items, upto - 1)
    }
}

/// The width of the menu: the widest item and four cells for padding and
/// borders, but at least twelve, cut to sixteen bits.
pub open spec fn menu_width(items: Seq<ContextMenuItem>) -> int {
    (if widest(items, items.len() as int) + 4 < 12 {
        12
    } else {
        widest(items, items.len() as int) + 4
    }) % 0x1_0000
}

/// The height of the menu: one row for each item and two for the borders,
/// cut to sixteen bits.
pub open spec fn menu_height(items: Seq<ContextMenuItem>) -> int {
    ((items.len() as int) % 0x1_0000 + 2) % 0x1_0000
}

/// Where a menu of the given extent opens along one axis: at the click
/// where it fits between there and the end of the screen, and otherwise
/// moved back by its extent, but not before the start of the screen.
pub open spec fn placed(click: u16, extent: int, screen: u16) -> int {
    if click + extent <= screen {
        click as int
    } else if click - extent < 0 {
        0
    } else {
        click - extent
    }
}

/// The extent that is left between `at` and the end of the screen, but not
/// more than `extent`.
pub open spec fn clipped(extent: int, at: int, screen: u16) -> int {
    if screen - at < 0 {
        0
    } else if extent < screen - at {
        extent
    } else {
        screen - at
    }
}

/// The rectangle in which the menu opens after a click at `click_x`,
/// `click_y` on a screen of the size of `screen`.
pub open spec fn menu_area(items: Seq<ContextMenuItem>, click_x: u16, click_y: u16, screen: Rect) -> (
    int,
    int,
    int,
    int,
) {
    let x = placed(click_x, menu_width(items), screen.width);
    let y = placed(click_y, menu_height(items), screen.height);
    (
        x,
        y,
        clipped(menu_width(items), x, screen.width),
        clipped(menu_height(items), y, screen.height),
    )
}

fn place(click: u16, extent: u16, screen: u16) -> (r: u16)
    ensures
        r == placed(click, extent as int, screen),
{
    if extent <= screen && click <= screen - extent {
        click
    } else if click < extent {
        0
    } else {
        click - extent
    }
}

fn clip(extent: u16, at: u16, screen: u16) -> (r: u16)
    ensures
        r == clipped(extent as int, at as int, screen),
{
    if at > screen {
        0
    } else if extent < screen - at {
        extent
    } else {
        screen - at
    }
}

/// Computes the menu rectangle, moving it left or up where it would leave
/// the screen.
pub fn compute_area(items: &Vec<ContextMenuItem>, click_x: u16, click_y: u16, screen: Rect) -> (r:
    Rect)
    ensures
        (r.x as int, r.y as int, r.width as int, r.height as int) == menu_area(
            items@,
            click_x,
            click_y,
            screen,
        ),
{
    let mut max_label: u128 = 0;
    let mut i: usize = 0;
    while i < items.len()
        invariant
            i <= items.len(),
            max_label == widest(items@, i as int),
            max_label <= 2 * usize::MAX + 2,
        decreases items.len() - i,
    {
        let label_len = items[i].label.len() as u128;
        let hint_len = items[i].hint.len() as u128;
        let span: u128 = if hint_len == 0 {
            label_len
        } else {
            label_len + 2 + hint_len
        };
        if span > max_label {
            max_label = span;
        }
        i += 1;
    }
    let padded: u128 = if max_label + 4 < 12 {
        12
    } else {
        max_label + 4
    };
    let width = (padded % 0x1_0000) as u16;
    let height = (((items.len() % 0x1_0000) + 2) % 0x1_0000) as u16;
    let x = place(click_x, width, screen.width);
    let y = place(click_y, height, screen.height);
    Rect { x, y, width: clip(width, x, screen.width), height: clip(height, y, screen.height) }
}

/// The context menu state.
#[derive(Debug)]
pub struct ContextMenu {
    pub target: ContextMenuTarget,
    pub items: Vec<ContextMenuItem>,
    pub cursor: usize,
    pub area: Rect,
}

/// `next` is the nearest enabled item below `cursor`.
pub open spec fn nearest_below(items: Seq<ContextMenuItem>, cursor: int, next: int) -> bool {
    &&& cursor < next < items.len()
    &&& items[next].enabled
    &&& forall|k: int| cursor < k < next ==> !(#[trigger] items[k]).enabled
}

/// `next` is the nearest enabled item above `cursor`.
pub open spec fn nearest_above(items: Seq<ContextMenuItem>, cursor: int, next: int) -> bool {
    &&& 0 <= next < cursor
    &&& next < items.len()
    &&& items[next].enabled
    &&& forall|k: int| next < k < cursor && k < items.len() ==> !(#[trigger] items[k]).enabled
}

impl ContextMenu {
    /// Moves the cursor up to the nearest enabled item; it stays where no
    /// item above it is enabled.
    pub fn cursor_up(&mut self)
        ensures
            final(self).items == old(self).items,
            final(self).area == old(self).area,
            final(self).target == old(self).target,
            nearest_above(old(self).items@, old(self).cursor as int, final(self).cursor as int) || (
            final(self).cursor == old(self).cursor && forall|k: int|
                0 <= k < old(self).cursor && k < old(self).items@.len() ==> !(
                #[trigger] old(self).items@[k]).enabled),
    {
        let mut next = self.cursor;
        while next > 0
            invariant
                next <= self.cursor,
                *self == *old(self),
                forall|k: int|
                    next <= k < self.cursor && k < self.items@.len() ==> !(
                    #[trigger] self.items@[k]).enabled,
            decreases next,
        {
            next -= 1;
            if next < self.items.len() && self.items[next].enabled {
                self.cursor = next;
                return;
            }
        }
    }

    /// Moves the cursor down to the nearest enabled item; it stays where no
    /// item below it is enabled.
    pub fn cursor_down(&mut self)
        ensures
            final(self).items == old(self).items,
            final(self).area == old(self).area,
            final(self).target == old(self).target,
            nearest_below(old(self).items@, old(self).cursor as int, final(self).cursor as int) || (
            final(self).cursor == old(self).cursor && forall|k: int|
                old(self).cursor < k < old(self).items@.len() ==> !(
                #[trigger] old(self).items@[k]).enabled),
    {
        if self.cursor >= self.items.len() {
            return;
        }
        let mut next = self.cursor;
        while next + 1 < self.items.len()
            invariant
                self.cursor <= next < self.items.len(),
                *self == *old(self),
                forall|k: int| self.cursor < k <= next ==> !(#[trigger] self.items@[k]).enabled,
            decreases self.items.len() - next,
        {
            next += 1;
            if self.items[next].enabled {
                self.cursor = next;
                return;
            }
        }
    }

    /// The action of the item under the cursor, where that item is enabled.
    pub fn selected_action(&self) -> (r: Option<ContextMenuAction>)
        ensures
            r == if self.cursor < self.items@.len() && self.items@[self.cursor as int].enabled {
                Some(self.items@[self.cursor as int].action)
            } else {
                None
            },
    {
        if self.cursor < self.items.len() && self.items[self.cursor].enabled {
            Some(self.items[self.cursor].action)
        } else {
            None
        }
    }
}

/// How the label of an item is drawn.
#[derive(Debug, Clone, Copy, PartialEq, Eq, Structural)]
pub enum ItemStyle {
    /// Dimmed: the item cannot be chosen.
    Disabled,
    /// On the accent colour and bold: the cursor is on the item.
    Selected,
    /// White on the background of the menu.
    Normal,
}

/// How the hint of an item is drawn.
#[derive(Debug, Clone, Copy, PartialEq, Eq, Structural)]
pub enum HintStyle {
    /// Dark on the accent colour: the cursor is on the item.
    Selected,
    /// Dimmed on the background of the menu.
    Dim,
}

/// A row of the menu as it is drawn: a blank, the label, and where the
/// item has a hint, the padding and the hint.
#[derive(Debug, Clone, Copy)]
pub struct MenuRow {
    pub label: &'static str,
    pub hint: &'static str,
    pub style: ItemStyle,
    pub hint_style: HintStyle,
    /// How many blanks stand between the label and the hint.
    pub padding: u16,
}

/// The blanks between label and hint that move the hint to the right edge
/// of a row of `inner` cells: what the blank in front, the label, the hint
/// and the blank behind leave over. An item without a hint has none.
pub open spec fn item_padding(it: ContextMenuItem, inner: u16) -> int {
    let used = it.label.len() + it.hint.len() + 2;
    if it.hint.len() == 0 || used >= inner {
        0
    } else {
        inner - used
    }
}

/// The row of an item in a menu whose rows are `inner` cells wide.
pub open spec fn row_of(it: ContextMenuItem, at_cursor: bool, inner: u16) -> MenuRow {
    MenuRow {
        label: it.label,
        hint: it.hint,
        style: if !it.enabled {
            ItemStyle::Disabled
        } else if at_cursor {
            ItemStyle::Selected
        } else {
            ItemStyle::Normal
        },
        hint_style: if at_cursor && it.enabled {
            HintStyle::Selected
        } else {
            HintStyle::Dim
        },
        padding: item_padding(it, inner) as u16,
    }
}

/// The part of the menu's rectangle that lies in `area`: it starts where
/// both have started and ends where the first of them ends. `None` where
/// nothing is left.
pub open spec fn shown_rect(menu: Rect, area: Rect) -> Option<Rect> {
    let x = if menu.x < area.x {
        area.x
    } else {
        menu.x
    };
    let y = if menu.y < area.y {
        area.y
    } else {
        menu.y
    };
    let right = if area.x + area.width > u16::MAX {
        u16::MAX as int
    } else {
        area.x + area.width
    };
    let bottom = if area.y + area.height > u16::MAX {
        u16::MAX as int
    } else {
        area.y + area.height
    };
    let width = if right - x < menu.width {
        right - x
    } else {
        menu.width as int
    };
    let height = if bottom - y < menu.height {
        bottom - y
    } else {
        menu.height as int
    };
    if width <= 0 || height <= 0 {
        None
    } else {
        Some(Rect { x, y, width: width as u16, height: height as u16 })
    }
}

/// How many items a menu drawn in `rect` shows: those that fit between
/// its two borders.
pub open spec fn rows_shown(items: int, rect: Rect) -> int {
    if rect.height < 2 {
        0
    } else if items < rect.height - 2 {
        items
    } else {
        rect.height - 2
    }
}

impl ContextMenu {
    /// The part of the menu's rectangle that lies in `area`.
    pub fn shown_area(&self, area: &Rect) -> (r: Option<Rect>)
        ensures
            r == shown_rect(self.area, *area),
    {
        let x = if self.area.x < area.x {
            area.x
        } else {
            self.area.x
        };
        let y = if self.area.y < area.y {
            area.y
        } else {
            self.area.y
        };
        let right = area.right();
        let bottom = area.bottom();
        if right <= x || bottom <= y {
            return None;
        }
        let width = if right - x < self.area.width {
            right - x
        } else {
            self.area.width
        };
        let height = if bottom - y < self.area.height {
            bottom - y
        } else {
            self.area.height
        };
        if width == 0 || height == 0 {
            None
        } else {
            Some(Rect { x, y, width, height })
        }
    }

    /// The rows of the menu as they are drawn in `rect`, from the first
    /// item on, as many as fit between the borders.
    pub fn rows(&self, rect: &Rect) -> (r: Vec<MenuRow>)
        ensures
            r@.len() == rows_shown(self.items@.len() as int, *rect),
            forall|i: int|
                0 <= i < r@.len() ==> r@[i] == row_of(
                    #[trigger] self.items@[i],
                    i == self.cursor,
                    if rect.width < 2 {
                        0u16
                    } else {
                        (rect.width - 2) as u16
                    },
                ),
    {
        let inner: u16 = if rect.width < 2 {
            0
        } else {
            rect.width - 2
        };
        let fit: usize = if rect.height < 2 {
            0
        } else {
            (rect.height - 2) as usize
        };
        let count = if self.items.len() < fit {
            self.items.len()
        } else {
            fit
        };
        let mut rows: Vec<MenuRow> = Vec::new();
        let mut i: usize = 0;
        while i < count
            invariant
                i <= count <= self.items@.len(),
                rows@.len() == i,
                forall|k: int|
                    0 <= k < i ==> rows@[k] == row_of(
                        #[trigger] self.items@[k],
                        k == self.cursor,
                        inner,
                    ),
            decreases count - i,
        {
            let it = self.items[i];
            let used: u128 = it.label.len() as u128 + it.hint.len() as u128 + 2;
            let padding: u16 = if it.hint.len() == 0 || used >= inner as u128 {
                0
            } else {
                (inner as u128 - used) as u16
            };
            let at_cursor = i == self.cursor;
            rows.push(
                MenuRow {
                    label: it.label,
                    hint: it.hint,
                    style: if !it.enabled {
                        ItemStyle::Disabled
                    } else if at_cursor {
                        ItemStyle::Selected
                    } else {
                        ItemStyle::Normal
                    },
                    hint_style: if at_cursor && it.enabled {
                        HintStyle::Selected
                    } else {
                        HintStyle::Dim
                    },
                    padding,
                },
            );
            i += 1;
        }
        rows
    }
}

} // verus!
