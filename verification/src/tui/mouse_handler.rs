//! What a mouse event does.

use vstd::prelude::*;
use crate::tui::app::{CommandStatus, MouseState, DOUBLE_CLICK_MILLIS};
use crate::tui::context_menu::{
    build_command_menu, build_group_menu, build_terminal_menu, command_menu, compute_area,
    group_menu, menu_area, terminal_menu, ContextMenu, ContextMenuItem, ContextMenuTarget, Rect,
};
use crate::tui::toolbar::{region_at, ToolbarAction, ToolbarCache};
use crate::tui::tree_widget::{KindView, NodeKind, VisibleNode, VisibleView};

verus! {

/// A button of the mouse.
#[derive(Debug, Clone, Copy, PartialEq, Eq, Structural)]
pub enum MouseButton {
    Left,
    Right,
    Middle,
}

/// What the mouse did.
#[derive(Debug, Clone, Copy, PartialEq, Eq, Structural)]
pub enum MouseKind {
    Down(MouseButton),
    Up(MouseButton),
    Drag(MouseButton),
    Moved,
    ScrollUp,
    ScrollDown,
    Other,
}

/// A mouse event: what happened, and in which cell.
#[derive(Debug, Clone, Copy, PartialEq, Eq, Structural)]
pub struct MouseEvent {
    pub kind: MouseKind,
    pub column: u16,
    pub row: u16,
}

/// What the mouse handler reads of the state of the interface.
pub struct MouseContext<'a> {
    /// The context menu, where one is open.
    pub menu: Option<&'a ContextMenu>,
    pub toolbar: &'a ToolbarCache,
    pub nodes: &'a Vec<VisibleNode>,
    pub tree_area: Rect,
    pub terminal_area: Rect,
    pub tree_scroll: usize,
    pub log_scroll: usize,
    pub show_logs: bool,
    pub mouse: &'a MouseState,
    /// The time of the event, in milliseconds.
    pub now: u64,
    /// Whether a terminal is active, and whether it has a process.
    pub has_active_terminal: bool,
    pub active_has_process: bool,
    /// Whether the active terminal holds scrollback.
    pub has_scrollback: bool,
    /// Whether the active command is interactive.
    pub interactive: bool,
}

/// What a mouse event asks for.
#[derive(Debug, Clone, Copy, PartialEq, Eq, Structural)]
#[allow(inconsistent_fields)]
pub enum MouseEffect {
    Nothing,
    /// Move the menu's cursor to this row, where one is given, and do what
    /// the item under the cursor says.
    MenuPick { row: Option<usize> },
    MenuClose,
    /// Move the menu's cursor to this row.
    MenuHover(usize),
    /// Do what the toolbar shortcut says.
    Toolbar(ToolbarAction),
    /// The shortcut under the pointer.
    ToolbarHover(Option<usize>),
    /// Give the focus to the tree.
    FocusTree,
    /// Move the cursor to the row, show its terminal and start the command.
    StartCommand { row: usize },
    /// Expand or collapse the group in the row.
    SetExpanded { row: usize, expanded: bool },
    /// Move the cursor to the row and show its terminal; with `toggle`,
    /// toggle what is there.
    TreeClick { row: usize, toggle: bool },
    /// Start resizing the tree pane.
    StartResize,
    /// Start dragging the scrollbar at this row of the screen; with
    /// `focus`, give the focus to the terminal.
    ScrollbarGrab { row: u16, focus: bool },
    /// Give the focus to the terminal and, with `forward`, send the click
    /// at this cell of the terminal to its process.
    TerminalClick { x: u16, y: u16, forward: bool },
    /// Set the width of the tree pane.
    Resize(u16),
    /// Drag the scrollbar to this row of the screen.
    ScrollbarDrag { row: u16 },
    /// End every drag.
    Release,
    /// The tree row under the pointer.
    Hover(Option<usize>),
    /// Scroll the tree to this row.
    TreeScroll(usize),
    /// Scroll the log pane to this offset.
    LogScroll(usize),
    /// Send a turn of the wheel at this cell to the active process, or
    /// scroll its output where it does not listen to the mouse.
    TerminalWheel { up: bool, x: u16, y: u16 },
    /// Open the context menu of the tree row.
    OpenTreeMenu { row: usize },
    /// Open the context menu of the terminal pane.
    OpenTerminalMenu,
}

/// `a - b`, and zero where that would be less.
pub open spec fn minus(a: int, b: int) -> int {
    if a < b {
        0
    } else {
        a - b
    }
}

/// The sum, kept within what a `usize` holds.
pub open spec fn capped(n: int) -> usize {
    if n > usize::MAX {
        usize::MAX
    } else {
        n as usize
    }
}

/// The tree row under a screen row.
pub open spec fn tree_row(ctx: MouseContext, row: u16) -> usize {
    capped(minus(row as int, ctx.tree_area.y as int) + ctx.tree_scroll)
}

/// The column where the mark of a node starts: two cells for each guide,
/// and two for the branch below the root; cut to sixteen bits.
pub open spec fn orb_column(node: VisibleView) -> int {
    (node.ancestor_is_last.len() * 2 + if node.depth > 0 {
        2int
    } else {
        0int
    }) % 0x1_0000
}

/// The row of the menu under a screen row: the rows of the menu start
/// below its border.
pub open spec fn menu_row(menu: ContextMenu, row: u16) -> int {
    minus(row - menu.area.y, 1)
}

/// What an event does while the context menu is open.
pub open spec fn menu_effect(menu: ContextMenu, event: MouseEvent) -> MouseEffect {
    let inside = menu.area.x <= event.column && event.column < menu.area.x + menu.area.width
        && menu.area.y <= event.row && event.row < menu.area.y + menu.area.height;
    let row = menu_row(menu, event.row);
    match event.kind {
        MouseKind::Down(MouseButton::Left) => if inside {
            MouseEffect::MenuPick {
                row: if row < menu.items@.len() {
                    Some(row as usize)
                } else {
                    None
                },
            }
        } else {
            MouseEffect::MenuClose
        },
        MouseKind::Moved => if inside && row < menu.items@.len() && menu.items@[row].enabled {
            MouseEffect::MenuHover(row as usize)
        } else {
            MouseEffect::Nothing
        },
        MouseKind::ScrollUp => MouseEffect::MenuClose,
        MouseKind::ScrollDown => MouseEffect::MenuClose,
        _ => MouseEffect::Nothing,
    }
}

/// The shortcut at a column, where there is one.
pub open spec fn shortcut_at(toolbar: ToolbarCache, column: u16) -> Option<usize> {
    match region_at(toolbar.regions@, column, 0) {
        Some(i) => Some(i as usize),
        None => None,
    }
}

/// What an event on the toolbar does.
pub open spec fn toolbar_effect(toolbar: ToolbarCache, event: MouseEvent) -> MouseEffect {
    match event.kind {
        MouseKind::Down(MouseButton::Left) => match region_at(toolbar.regions@, event.column, 0) {
            Some(i) => MouseEffect::Toolbar(toolbar.regions@[i].action),
            None => MouseEffect::Nothing,
        },
        MouseKind::Moved => MouseEffect::ToolbarHover(shortcut_at(toolbar, event.column)),
        _ => MouseEffect::Nothing,
    }
}

/// Whether a click on `row` is the second of a double click.
pub open spec fn double_click(ctx: MouseContext, row: usize, on_orb: bool) -> bool {
    !on_orb && (ctx.mouse.last_click matches Some((t, last_row)) && last_row == row && ctx.now
        >= t && ctx.now - t < DOUBLE_CLICK_MILLIS)
}

/// What a click of the left button on the tree does.
pub open spec fn tree_click(ctx: MouseContext, event: MouseEvent) -> MouseEffect {
    let row = tree_row(ctx, event.row);
    if row >= ctx.nodes@.len() {
        MouseEffect::FocusTree
    } else {
        let node = ctx.nodes@[row as int]@;
        let orb = orb_column(node);
        let on_orb = orb <= event.column && event.column < orb + 2;
        if double_click(ctx, row, on_orb) {
            match node.kind {
                KindView::Command { .. } => MouseEffect::StartCommand { row },
                KindView::Group { expanded, .. } => MouseEffect::SetExpanded {
                    row,
                    expanded: !expanded,
                },
            }
        } else {
            MouseEffect::TreeClick { row, toggle: on_orb }
        }
    }
}

/// The last column of the terminal pane.
pub open spec fn scrollbar_column(area: Rect) -> int {
    minus(
        if area.x + area.width > u16::MAX {
            u16::MAX as int
        } else {
            area.x + area.width
        },
        1,
    )
}

/// What a click of the left button on the terminal pane does.
pub open spec fn terminal_click(ctx: MouseContext, event: MouseEvent) -> MouseEffect {
    if event.column == scrollbar_column(ctx.terminal_area) && ctx.has_active_terminal
        && ctx.active_has_process && ctx.has_scrollback {
        MouseEffect::ScrollbarGrab { row: event.row, focus: ctx.interactive }
    } else if ctx.interactive {
        MouseEffect::TerminalClick {
            x: minus(event.column as int, ctx.terminal_area.x as int) as u16,
            y: minus(event.row as int, ctx.terminal_area.y as int) as u16,
            forward: ctx.has_active_terminal && ctx.active_has_process,
        }
    } else {
        MouseEffect::Nothing
    }
}

/// The width of the tree pane while it is dragged to `column`: at least
/// ten columns, and at least ten left for the terminal.
pub open spec fn dragged_width(column: u16, area: Rect) -> int {
    let most = minus(scrollbar_column(area) + 1, 10);
    let least = if column < 10 {
        10
    } else {
        column as int
    };
    if least < most {
        least
    } else {
        most
    }
}

/// What a turn of the wheel does.
pub open spec fn wheel_effect(ctx: MouseContext, event: MouseEvent, up: bool) -> MouseEffect {
    if event.column < ctx.tree_area.width {
        MouseEffect::TreeScroll(
            if up {
                minus(ctx.tree_scroll as int, 5) as usize
            } else {
                let most = minus(ctx.nodes@.len() as int, 1);
                if ctx.tree_scroll + 5 < most {
                    (ctx.tree_scroll + 5) as usize
                } else {
                    most as usize
                }
            },
        )
    } else if ctx.show_logs {
        MouseEffect::LogScroll(
            if up {
                capped(ctx.log_scroll + 5)
            } else {
                minus(ctx.log_scroll as int, 5) as usize
            },
        )
    } else if ctx.has_active_terminal && ctx.active_has_process {
        MouseEffect::TerminalWheel {
            up,
            x: minus(event.column as int, ctx.terminal_area.x as int) as u16,
            y: minus(event.row as int, ctx.terminal_area.y as int) as u16,
        }
    } else {
        MouseEffect::Nothing
    }
}

/// What an event does on the panes, with no menu open.
pub open spec fn pane_effect(ctx: MouseContext, event: MouseEvent) -> MouseEffect {
    match event.kind {
        MouseKind::Down(MouseButton::Left) => if event.column < ctx.tree_area.width {
            tree_click(ctx, event)
        } else if event.column == ctx.tree_area.width {
            MouseEffect::StartResize
        } else {
            terminal_click(ctx, event)
        },
        MouseKind::Drag(MouseButton::Left) => if ctx.mouse.resizing {
            MouseEffect::Resize(dragged_width(event.column, ctx.terminal_area) as u16)
        } else if ctx.mouse.scrollbar_dragging && ctx.has_active_terminal
            && ctx.active_has_process {
            MouseEffect::ScrollbarDrag { row: event.row }
        } else {
            MouseEffect::Nothing
        },
        MouseKind::Up(MouseButton::Left) => MouseEffect::Release,
        MouseKind::Moved => MouseEffect::Hover(
            if event.column < ctx.tree_area.width && tree_row(ctx, event.row) < ctx.nodes@.len() {
                Some(tree_row(ctx, event.row))
            } else {
                None
            },
        ),
        MouseKind::ScrollUp => wheel_effect(ctx, event, true),
        MouseKind::ScrollDown => wheel_effect(ctx, event, false),
        MouseKind::Down(MouseButton::Right) => if event.column < ctx.tree_area.width {
            if tree_row(ctx, event.row) < ctx.nodes@.len() {
                MouseEffect::OpenTreeMenu { row: tree_row(ctx, event.row) }
            } else {
                MouseEffect::Nothing
            }
        } else if event.column > ctx.tree_area.width && ctx.has_active_terminal {
            MouseEffect::OpenTerminalMenu
        } else {
            MouseEffect::Nothing
        },
        _ => MouseEffect::Nothing,
    }
}

/// What a mouse event does: the open menu has the first say, then the
/// toolbar, for every event on its row or below, then the panes.
pub open spec fn mouse_effect(ctx: MouseContext, event: MouseEvent) -> MouseEffect {
    match ctx.menu {
        Some(menu) => menu_effect(*menu, event),
        None => if event.row >= ctx.toolbar.y {
            toolbar_effect(*ctx.toolbar, event)
        } else {
            pane_effect(ctx, event)
        },
    }
}

fn on_menu(menu: &ContextMenu, event: MouseEvent) -> (r: MouseEffect)
    ensures
        r == menu_effect(*menu, event),
{
    let inside = menu.area.contains(event.column, event.row);
    let below: u16 = if event.row >= menu.area.y {
        event.row - menu.area.y
    } else {
        0
    };
    let row: usize = if below >= 1 {
        (below - 1) as usize
    } else {
        0
    };
    match event.kind {
        MouseKind::Down(MouseButton::Left) => {
            if inside {
                MouseEffect::MenuPick {
                    row: if row < menu.items.len() {
                        Some(row)
                    } else {
                        None
                    },
                }
            } else {
                MouseEffect::MenuClose
            }
        },
        MouseKind::Moved => {
            if inside && row < menu.items.len() && menu.items[row].enabled {
                MouseEffect::MenuHover(row)
            } else {
                MouseEffect::Nothing
            }
        },
        MouseKind::ScrollUp => MouseEffect::MenuClose,
        MouseKind::ScrollDown => MouseEffect::MenuClose,
        _ => MouseEffect::Nothing,
    }
}

fn on_toolbar(toolbar: &ToolbarCache, event: MouseEvent) -> (r: MouseEffect)
    ensures
        r == toolbar_effect(*toolbar, event),
{
    match event.kind {
        MouseKind::Down(MouseButton::Left) => match toolbar.hit(event.column) {
            Some(i) => MouseEffect::Toolbar(toolbar.regions[i].action),
            None => MouseEffect::Nothing,
        },
        MouseKind::Moved => MouseEffect::ToolbarHover(toolbar.hit(event.column)),
        _ => MouseEffect::Nothing,
    }
}

fn row_under(ctx: &MouseContext<'_>, row: u16) -> (r: usize)
    ensures
        r == tree_row(*ctx, row),
{
    let below: usize = if row >= ctx.tree_area.y {
        (row - ctx.tree_area.y) as usize
    } else {
        0
    };
    if below > usize::MAX - ctx.tree_scroll {
        usize::MAX
    } else {
        below + ctx.tree_scroll
    }
}

fn orb_of(node: &VisibleNode) -> (r: u16)
    ensures
        r == orb_column(node@),
{
    let guides = node.ancestor_is_last.len() as u128 * 2;
    let branch: u128 = if node.depth > 0 {
        2
    } else {
        0
    };
    ((guides + branch) % 0x1_0000) as u16
}

fn on_tree_click(ctx: &MouseContext<'_>, event: MouseEvent) -> (r: MouseEffect)
    ensures
        r == tree_click(*ctx, event),
{
    let row = row_under(ctx, event.row);
    if row >= ctx.nodes.len() {
        return MouseEffect::FocusTree;
    }
    let node = &ctx.nodes[row];
    let orb = orb_of(node);
    let on_orb = event.column >= orb && (event.column as u32) < orb as u32 + 2;
    if ctx.mouse.is_double_click(ctx.now, row, on_orb) {
        match &node.kind {
            NodeKind::Command { .. } => MouseEffect::StartCommand { row },
            NodeKind::Group { expanded, .. } => MouseEffect::SetExpanded {
                row,
                expanded: !*expanded,
            },
        }
    } else {
        MouseEffect::TreeClick { row, toggle: on_orb }
    }
}

fn last_column(area: &Rect) -> (r: u16)
    ensures
        r == scrollbar_column(*area),
{
    let right = area.right();
    if right >= 1 {
        right - 1
    } else {
        0
    }
}

fn offset(at: u16, start: u16) -> (r: u16)
    ensures
        r == minus(at as int, start as int),
{
    if at >= start {
        at - start
    } else {
        0
    }
}

fn on_terminal_click(ctx: &MouseContext<'_>, event: MouseEvent) -> (r: MouseEffect)
    ensures
        r == terminal_click(*ctx, event),
{
    let live = ctx.has_active_terminal && ctx.active_has_process;
    if event.column == last_column(&ctx.terminal_area) && live && ctx.has_scrollback {
        MouseEffect::ScrollbarGrab { row: event.row, focus: ctx.interactive }
    } else if ctx.interactive {
        MouseEffect::TerminalClick {
            x: offset(event.column, ctx.terminal_area.x),
            y: offset(event.row, ctx.terminal_area.y),
            forward: live,
        }
    } else {
        MouseEffect::Nothing
    }
}

fn on_wheel(ctx: &MouseContext<'_>, event: MouseEvent, up: bool) -> (r: MouseEffect)
    ensures
        r == wheel_effect(*ctx, event, up),
{
    if event.column < ctx.tree_area.width {
        if up {
            MouseEffect::TreeScroll(
                if ctx.tree_scroll >= 5 {
                    ctx.tree_scroll - 5
                } else {
                    0
                },
            )
        } else {
            let most: usize = if ctx.nodes.len() >= 1 {
                ctx.nodes.len() - 1
            } else {
                0
            };
            MouseEffect::TreeScroll(
                if ctx.tree_scroll < most && most - ctx.tree_scroll > 5 {
                    ctx.tree_scroll + 5
                } else {
                    most
                },
            )
        }
    } else if ctx.show_logs {
        if up {
            MouseEffect::LogScroll(
                if ctx.log_scroll > usize::MAX - 5 {
                    usize::MAX
                } else {
                    ctx.log_scroll + 5
                },
            )
        } else {
            MouseEffect::LogScroll(
                if ctx.log_scroll >= 5 {
                    ctx.log_scroll - 5
                } else {
                    0
                },
            )
        }
    } else if ctx.has_active_terminal && ctx.active_has_process {
        MouseEffect::TerminalWheel {
            up,
            x: offset(event.column, ctx.terminal_area.x),
            y: offset(event.row, ctx.terminal_area.y),
        }
    } else {
        MouseEffect::Nothing
    }
}

fn width_for(column: u16, area: &Rect) -> (r: u16)
    ensures
        r == dragged_width(column, *area),
{
    let right = area.right();
    let most: u16 = if right >= 10 {
        right - 10
    } else {
        0
    };
    let least: u16 = if column < 10 {
        10
    } else {
        column
    };
    if least < most {
        least
    } else {
        most
    }
}

fn on_panes(ctx: &MouseContext<'_>, event: MouseEvent) -> (r: MouseEffect)
    ensures
        r == pane_effect(*ctx, event),
{
    match event.kind {
        MouseKind::Down(MouseButton::Left) => {
            if event.column < ctx.tree_area.width {
                on_tree_click(ctx, event)
            } else if event.column == ctx.tree_area.width {
                MouseEffect::StartResize
            } else {
                on_terminal_click(ctx, event)
            }
        },
        MouseKind::Drag(MouseButton::Left) => {
            if ctx.mouse.resizing {
                MouseEffect::Resize(width_for(event.column, &ctx.terminal_area))
            } else if ctx.mouse.scrollbar_dragging && ctx.has_active_terminal
                && ctx.active_has_process {
                MouseEffect::ScrollbarDrag { row: event.row }
            } else {
                MouseEffect::Nothing
            }
        },
        MouseKind::Up(MouseButton::Left) => MouseEffect::Release,
        MouseKind::Moved => {
            let row = row_under(ctx, event.row);
            MouseEffect::Hover(
                if event.column < ctx.tree_area.width && row < ctx.nodes.len() {
                    Some(row)
                } else {
                    None
                },
            )
        },
        MouseKind::ScrollUp => on_wheel(ctx, event, true),
        MouseKind::ScrollDown => on_wheel(ctx, event, false),
        MouseKind::Down(MouseButton::Right) => {
            if event.column < ctx.tree_area.width {
                let row = row_under(ctx, event.row);
                if row < ctx.nodes.len() {
                    MouseEffect::OpenTreeMenu { row }
                } else {
                    MouseEffect::Nothing
                }
            } else if event.column > ctx.tree_area.width && ctx.has_active_terminal {
                MouseEffect::OpenTerminalMenu
            } else {
                MouseEffect::Nothing
            }
        },
        _ => MouseEffect::Nothing,
    }
}

/// Decides what a mouse event does.
pub fn handle_mouse(ctx: &MouseContext<'_>, event: MouseEvent) -> (r: MouseEffect)
    ensures
        r == mouse_effect(*ctx, event),
{
    match ctx.menu {
        Some(menu) => on_menu(menu, event),
        None => {
            if event.row >= ctx.toolbar.y {
                on_toolbar(ctx.toolbar, event)
            } else {
                on_panes(ctx, event)
            }
        },
    }
}

/// The screen on which a context menu is placed: as wide as both panes and
/// the border between them, as high as the tree and the toolbar below it;
/// each kept within sixteen bits.
pub open spec fn menu_screen(tree_area: Rect, terminal_area: Rect) -> Rect {
    let right = if tree_area.x + tree_area.width > u16::MAX {
        u16::MAX as int
    } else {
        tree_area.x + tree_area.width
    };
    Rect {
        x: 0,
        y: 0,
        width: if right + terminal_area.width + 1 > u16::MAX {
            u16::MAX
        } else {
            (right + terminal_area.width + 1) as u16
        },
        height: if tree_area.height + 1 > u16::MAX {
            u16::MAX
        } else {
            (tree_area.height + 1) as u16
        },
    }
}

fn screen_for(tree_area: &Rect, terminal_area: &Rect) -> (r: Rect)
    ensures
        r == menu_screen(*tree_area, *terminal_area),
{
    let wide = tree_area.right() as u32 + terminal_area.width as u32 + 1;
    let high = tree_area.height as u32 + 1;
    Rect {
        x: 0,
        y: 0,
        width: if wide > 0xffff {
            0xffff
        } else {
            wide as u16
        },
        height: if high > 0xffff {
            0xffff
        } else {
            high as u16
        },
    }
}

/// The context menu of a tree node, opened by a click at `column`, `row`.
pub fn menu_for_node(
    node: &VisibleNode,
    column: u16,
    row: u16,
    tree_area: &Rect,
    terminal_area: &Rect,
) -> (r: ContextMenu)
    ensures
        r.cursor == 0,
        r.items@ == match node@.kind {
            KindView::Group { expanded, selected, total, .. } => group_menu(
                expanded,
                selected,
                total,
            ),
            KindView::Command { selected, status, .. } => command_menu(selected, status),
        },
        (r.area.x as int, r.area.y as int, r.area.width as int, r.area.height as int)
            == menu_area(r.items@, column, row, menu_screen(*tree_area, *terminal_area)),
        match (node@.kind, r.target) {
            (
                KindView::Group { expanded, selected, total, .. },
                ContextMenuTarget::Group { id, expanded: e, selected: s, total: t },
            ) => id@ == node@.id && e == expanded && s == selected && t == total,
            (
                KindView::Command { selected, status, .. },
                ContextMenuTarget::Command { id, selected: s, status: st },
            ) => id@ == node@.id && s == selected && st@ == status,
            _ => false,
        },
{
    let (items, target) = match &node.kind {
        NodeKind::Group { expanded, selected, total, .. } => (
            build_group_menu(*expanded, *selected, *total),
            ContextMenuTarget::Group {
                id: node.id.clone(),
                expanded: *expanded,
                selected: *selected,
                total: *total,
            },
        ),
        NodeKind::Command { selected, status, .. } => (
            build_command_menu(*selected, status),
            ContextMenuTarget::Command {
                id: node.id.clone(),
                selected: *selected,
                status: status.clone(),
            },
        ),
    };
    let area = compute_area(&items, column, row, screen_for(tree_area, terminal_area));
    ContextMenu { target, items, cursor: 0, area }
}

/// The context menu of the terminal pane, opened by a click at `column`,
/// `row`.
pub fn menu_for_terminal(
    has_scrollback: bool,
    is_scrolled: bool,
    status: Option<&CommandStatus>,
    column: u16,
    row: u16,
    tree_area: &Rect,
    terminal_area: &Rect,
) -> (r: ContextMenu)
    ensures
        r.cursor == 0,
        r.target is Terminal,
        r.items@ == terminal_menu(
            has_scrollback,
            is_scrolled,
            match status {
                Some(s) => Some(s@),
                None => None,
            },
        ),
        (r.area.x as int, r.area.y as int, r.area.width as int, r.area.height as int)
            == menu_area(r.items@, column, row, menu_screen(*tree_area, *terminal_area)),
{
    let items = build_terminal_menu(has_scrollback, is_scrolled, status);
    let area = compute_area(&items, column, row, screen_for(tree_area, terminal_area));
    ContextMenu { target: ContextMenuTarget::Terminal, items, cursor: 0, area }
}

/// The shortcut under the pointer after an event: it stays as it is while
/// a menu is open; on the row of the toolbar a move puts it on the shortcut
/// that is hit, and anything else leaves it; off the toolbar there is none.
pub open spec fn hover_after_event(
    menu_open: bool,
    toolbar: ToolbarCache,
    event: MouseEvent,
) -> Option<usize> {
    if menu_open {
        toolbar.hover
    } else if event.row >= toolbar.y {
        match event.kind {
            MouseKind::Moved => shortcut_at(toolbar, event.column),
            _ => toolbar.hover,
        }
    } else {
        None
    }
}

/// The shortcut under the pointer after the event.
pub fn hover_after(ctx: &MouseContext<'_>, event: MouseEvent) -> (r: Option<usize>)
    ensures
        r == hover_after_event(ctx.menu is Some, *ctx.toolbar, event),
{
    if ctx.menu.is_some() {
        ctx.toolbar.hover
    } else if event.row >= ctx.toolbar.y {
        match event.kind {
            MouseKind::Moved => ctx.toolbar.hit(event.column),
            _ => ctx.toolbar.hover,
        }
    } else {
        None
    }
}

/// How many lines the wheel scrolls at a time.
pub const WHEEL_LINES: isize = 5;

/// What a turn of the wheel over the terminal does where the child does
/// not take mouse events: it scrolls back through the output, up by five
/// lines or down by five. Where the turn was forwarded to the child,
/// nothing is scrolled.
pub fn wheel_fallback(up: bool, forwarded: bool) -> (r: Option<isize>)
    ensures
        r == if forwarded {
            None
        } else if up {
            Some(-5isize)
        } else {
            Some(5isize)
        },
{
    if forwarded {
        None
    } else if up {
        Some(-WHEEL_LINES)
    } else {
        Some(WHEEL_LINES)
    }
}

} // verus!
