//! What a key press does.

use vstd::prelude::*;
use crate::tui::app::Focus;
use crate::tui::event::{KeyCode, KeyEvent};
use crate::tui::toolbar::{CursorKind, SearchKind, ToolbarAction};

verus! {

/// What the key handler reads of the state of the interface.
#[derive(Debug, Clone, Copy, PartialEq, Eq, Structural)]
pub struct KeyContext {
    pub focus: Focus,
    pub search: SearchKind,
    /// The row of the cursor, and how many rows are visible.
    pub cursor: usize,
    pub node_count: usize,
    /// What the cursor is on.
    pub node: CursorKind,
    /// Whether a terminal is active, and whether it has a process.
    pub has_active_terminal: bool,
    pub active_has_process: bool,
    /// Whether the active command is interactive.
    pub interactive: bool,
}

/// What a key press asks for.
#[derive(Debug, Clone, Copy, PartialEq, Eq, Structural)]
pub enum KeyEffect {
    Nothing,
    Quit,
    ToggleFullscreen,
    /// Give the focus to the tree, or to the terminal.
    Focus(Focus),
    /// Give the focus to the tree and leave the full screen.
    BackToTree,
    /// Send the key to the active terminal, where it translates to bytes.
    Forward,
    AcceptSearch,
    /// End the search and show every node again.
    ClearSearch,
    /// Remove the last character of the query, or append one to it, and
    /// keep the cursor within the rows that are left.
    PopSearch,
    PushSearch(char),
    ResumeSearch,
    StartSearch,
    /// Move the cursor to this row and show its terminal.
    MoveCursor(usize),
    /// Expand or collapse the group under the cursor.
    SetExpanded(bool),
    /// Select or deselect the command under the cursor.
    SetSelected(bool),
    /// Toggle what the cursor is on.
    Toggle,
    GitSelect,
    RunSelected,
    /// Start the command under the cursor and show its terminal.
    RunCommand,
    /// Start every command of the group under the cursor.
    RunGroup,
    StopCommand,
    ClearCommand,
    ToggleLogs,
}

/// What a key does while the tree is navigated.
pub open spec fn tree_key(ctx: KeyContext, code: KeyCode) -> KeyEffect {
    match code {
        KeyCode::Char(c) => if c == 'q' {
            KeyEffect::Quit
        } else if c == 'j' {
            step_down(ctx)
        } else if c == 'k' {
            step_up(ctx)
        } else if c == 'h' {
            fold(ctx)
        } else if c == 'l' {
            unfold(ctx)
        } else if c == ' ' {
            KeyEffect::Toggle
        } else if c == 'g' {
            KeyEffect::GitSelect
        } else if c == 'r' {
            run_current(ctx)
        } else if c == 's' {
            on_command(ctx, KeyEffect::StopCommand)
        } else if c == 'c' {
            on_command(ctx, KeyEffect::ClearCommand)
        } else if c == '/' {
            KeyEffect::StartSearch
        } else if c == 'L' {
            KeyEffect::ToggleLogs
        } else {
            KeyEffect::Nothing
        },
        KeyCode::Esc => KeyEffect::Quit,
        KeyCode::Down => step_down(ctx),
        KeyCode::Up => step_up(ctx),
        KeyCode::Left => fold(ctx),
        KeyCode::Right => unfold(ctx),
        KeyCode::Enter => KeyEffect::RunSelected,
        KeyCode::Tab => if !ctx.has_active_terminal {
            KeyEffect::Nothing
        } else if ctx.focus == Focus::Terminal {
            KeyEffect::Focus(Focus::Tree)
        } else if ctx.interactive {
            KeyEffect::Focus(Focus::Terminal)
        } else {
            KeyEffect::Nothing
        },
        _ => KeyEffect::Nothing,
    }
}

/// One row down, where there is one.
pub open spec fn step_down(ctx: KeyContext) -> KeyEffect {
    if ctx.cursor + 1 < ctx.node_count {
        KeyEffect::MoveCursor((ctx.cursor + 1) as usize)
    } else {
        KeyEffect::Nothing
    }
}

/// One row up, where there is one.
pub open spec fn step_up(ctx: KeyContext) -> KeyEffect {
    if ctx.cursor > 0 {
        KeyEffect::MoveCursor((ctx.cursor - 1) as usize)
    } else {
        KeyEffect::Nothing
    }
}

/// Collapse an expanded group, deselect a selected command.
pub open spec fn fold(ctx: KeyContext) -> KeyEffect {
    match ctx.node {
        CursorKind::Group { expanded } => if expanded {
            KeyEffect::SetExpanded(false)
        } else {
            KeyEffect::Nothing
        },
        CursorKind::Command { selected, .. } => if selected {
            KeyEffect::SetSelected(false)
        } else {
            KeyEffect::Nothing
        },
        CursorKind::Nothing => KeyEffect::Nothing,
    }
}

/// Expand a collapsed group, select a command that is not selected.
pub open spec fn unfold(ctx: KeyContext) -> KeyEffect {
    match ctx.node {
        CursorKind::Group { expanded } => if !expanded {
            KeyEffect::SetExpanded(true)
        } else {
            KeyEffect::Nothing
        },
        CursorKind::Command { selected, .. } => if !selected {
            KeyEffect::SetSelected(true)
        } else {
            KeyEffect::Nothing
        },
        CursorKind::Nothing => KeyEffect::Nothing,
    }
}

/// Run what the cursor is on.
pub open spec fn run_current(ctx: KeyContext) -> KeyEffect {
    match ctx.node {
        CursorKind::Command { .. } => KeyEffect::RunCommand,
        CursorKind::Group { .. } => KeyEffect::RunGroup,
        CursorKind::Nothing => KeyEffect::Nothing,
    }
}

/// `effect` where the cursor is on a command.
pub open spec fn on_command(ctx: KeyContext, effect: KeyEffect) -> KeyEffect {
    match ctx.node {
        CursorKind::Command { .. } => effect,
        _ => KeyEffect::Nothing,
    }
}

/// What a key does while the user types in the search bar; `None` where
/// the key passes on to the tree.
pub open spec fn editing_key(code: KeyCode) -> Option<KeyEffect> {
    match code {
        KeyCode::Enter => Some(KeyEffect::AcceptSearch),
        KeyCode::Esc => Some(KeyEffect::ClearSearch),
        KeyCode::Backspace => Some(KeyEffect::PopSearch),
        KeyCode::Char(c) => Some(KeyEffect::PushSearch(c)),
        KeyCode::Down => None,
        KeyCode::Up => None,
        _ => Some(KeyEffect::Nothing),
    }
}

/// What a key does while a filter is applied; `None` where the key passes
/// on to the tree.
pub open spec fn filtering_key(code: KeyCode) -> Option<KeyEffect> {
    match code {
        KeyCode::Char(c) => if c == '/' {
            Some(KeyEffect::ResumeSearch)
        } else {
            None
        },
        KeyCode::Esc => Some(KeyEffect::ClearSearch),
        _ => None,
    }
}

/// What a key press does.
///
/// Control-c quits and control-r toggles the full screen, wherever the
/// focus is. With the focus on the terminal, escape gives it back to the
/// tree, and any other key goes to the active process where there is one.
/// Else the search bar has the first say, and the tree the last.
pub open spec fn key_effect(ctx: KeyContext, key: KeyEvent) -> KeyEffect {
    if key.code == KeyCode::Char('c') && key.control {
        KeyEffect::Quit
    } else if key.code == KeyCode::Char('r') && key.control {
        KeyEffect::ToggleFullscreen
    } else if ctx.focus == Focus::Terminal && key.code == KeyCode::Esc {
        KeyEffect::Focus(Focus::Tree)
    } else if ctx.focus == Focus::Terminal && ctx.has_active_terminal && ctx.active_has_process {
        KeyEffect::Forward
    } else if ctx.focus == Focus::Tree && ctx.search == SearchKind::Editing && editing_key(
        key.code,
    ) is Some {
        editing_key(key.code)->Some_0
    } else if ctx.focus == Focus::Tree && ctx.search == SearchKind::Active && filtering_key(
        key.code,
    ) is Some {
        filtering_key(key.code)->Some_0
    } else {
        tree_key(ctx, key.code)
    }
}

fn down(ctx: &KeyContext) -> (r: KeyEffect)
    ensures
        r == step_down(*ctx),
{
    if ctx.cursor < usize::MAX && ctx.cursor + 1 < ctx.node_count {
        KeyEffect::MoveCursor(ctx.cursor + 1)
    } else {
        KeyEffect::Nothing
    }
}

fn up(ctx: &KeyContext) -> (r: KeyEffect)
    ensures
        r == step_up(*ctx),
{
    if ctx.cursor > 0 {
        KeyEffect::MoveCursor(ctx.cursor - 1)
    } else {
        KeyEffect::Nothing
    }
}

fn left(ctx: &KeyContext) -> (r: KeyEffect)
    ensures
        r == fold(*ctx),
{
    match ctx.node {
        CursorKind::Group { expanded } => if expanded {
            KeyEffect::SetExpanded(false)
        } else {
            KeyEffect::Nothing
        },
        CursorKind::Command { selected, .. } => if selected {
            KeyEffect::SetSelected(false)
        } else {
            KeyEffect::Nothing
        },
        CursorKind::Nothing => KeyEffect::Nothing,
    }
}

fn right(ctx: &KeyContext) -> (r: KeyEffect)
    ensures
        r == unfold(*ctx),
{
    match ctx.node {
        CursorKind::Group { expanded } => if !expanded {
            KeyEffect::SetExpanded(true)
        } else {
            KeyEffect::Nothing
        },
        CursorKind::Command { selected, .. } => if !selected {
            KeyEffect::SetSelected(true)
        } else {
            KeyEffect::Nothing
        },
        CursorKind::Nothing => KeyEffect::Nothing,
    }
}

fn run(ctx: &KeyContext) -> (r: KeyEffect)
    ensures
        r == run_current(*ctx),
{
    match ctx.node {
        CursorKind::Command { .. } => KeyEffect::RunCommand,
        CursorKind::Group { .. } => KeyEffect::RunGroup,
        CursorKind::Nothing => KeyEffect::Nothing,
    }
}

fn for_command(ctx: &KeyContext, effect: KeyEffect) -> (r: KeyEffect)
    ensures
        r == on_command(*ctx, effect),
{
    match ctx.node {
        CursorKind::Command { .. } => effect,
        _ => KeyEffect::Nothing,
    }
}

fn navigate(ctx: &KeyContext, code: KeyCode) -> (r: KeyEffect)
    ensures
        r == tree_key(*ctx, code),
{
    match code {
        KeyCode::Char(c) => {
            if c == 'q' {
                KeyEffect::Quit
            } else if c == 'j' {
                down(ctx)
            } else if c == 'k' {
                up(ctx)
            } else if c == 'h' {
                left(ctx)
            } else if c == 'l' {
                right(ctx)
            } else if c == ' ' {
                KeyEffect::Toggle
            } else if c == 'g' {
                KeyEffect::GitSelect
            } else if c == 'r' {
                run(ctx)
            } else if c == 's' {
                for_command(ctx, KeyEffect::StopCommand)
            } else if c == 'c' {
                for_command(ctx, KeyEffect::ClearCommand)
            } else if c == '/' {
                KeyEffect::StartSearch
            } else if c == 'L' {
                KeyEffect::ToggleLogs
            } else {
                KeyEffect::Nothing
            }
        },
        KeyCode::Esc => KeyEffect::Quit,
        KeyCode::Down => down(ctx),
        KeyCode::Up => up(ctx),
        KeyCode::Left => left(ctx),
        KeyCode::Right => right(ctx),
        KeyCode::Enter => KeyEffect::RunSelected,
        KeyCode::Tab => {
            if !ctx.has_active_terminal {
                KeyEffect::Nothing
            } else if ctx.focus == Focus::Terminal {
                KeyEffect::Focus(Focus::Tree)
            } else if ctx.interactive {
                KeyEffect::Focus(Focus::Terminal)
            } else {
                KeyEffect::Nothing
            }
        },
        _ => KeyEffect::Nothing,
    }
}

fn while_editing(code: KeyCode) -> (r: Option<KeyEffect>)
    ensures
        r == editing_key(code),
{
    match code {
        KeyCode::Enter => Some(KeyEffect::AcceptSearch),
        KeyCode::Esc => Some(KeyEffect::ClearSearch),
        KeyCode::Backspace => Some(KeyEffect::PopSearch),
        KeyCode::Char(c) => Some(KeyEffect::PushSearch(c)),
        KeyCode::Down => None,
        KeyCode::Up => None,
        _ => Some(KeyEffect::Nothing),
    }
}

fn while_filtering(code: KeyCode) -> (r: Option<KeyEffect>)
    ensures
        r == filtering_key(code),
{
    match code {
        KeyCode::Char(c) => if c == '/' {
            Some(KeyEffect::ResumeSearch)
        } else {
            None
        },
        KeyCode::Esc => Some(KeyEffect::ClearSearch),
        _ => None,
    }
}

/// Decides what a key press does.
pub fn handle_key(ctx: &KeyContext, key: KeyEvent) -> (r: KeyEffect)
    ensures
        r == key_effect(*ctx, key),
{
    if key.control {
        match key.code {
            KeyCode::Char(c) => {
                if c == 'c' {
                    return KeyEffect::Quit;
                }
                if c == 'r' {
                    return KeyEffect::ToggleFullscreen;
                }
            },
            _ => {},
        }
    }
    if ctx.focus == Focus::Terminal {
        if key.code == KeyCode::Esc {
            return KeyEffect::Focus(Focus::Tree);
        }
        if ctx.has_active_terminal && ctx.active_has_process {
            return KeyEffect::Forward;
        }
    }
    if ctx.focus == Focus::Tree && ctx.search == SearchKind::Editing {
        match while_editing(key.code) {
            Some(effect) => {
                return effect;
            },
            None => {},
        }
    }
    if ctx.focus == Focus::Tree && ctx.search == SearchKind::Active {
        match while_filtering(key.code) {
            Some(effect) => {
                return effect;
            },
            None => {},
        }
    }
    navigate(ctx, key.code)
}

/// The cursor after the query has changed: kept within the `node_count`
/// rows that are left.
pub fn clamp_cursor(cursor: usize, node_count: usize) -> (r: usize)
    ensures
        r == if node_count == 0 {
            0
        } else if cursor < node_count {
            cursor
        } else {
            (node_count - 1) as usize
        },
{
    if node_count == 0 {
        0
    } else if cursor < node_count {
        cursor
    } else {
        node_count - 1
    }
}

/// What a toolbar action asks for, in the terms of a key press.
pub fn toolbar_effect(action: ToolbarAction, ctx: &KeyContext) -> (r: KeyEffect)
    ensures
        r == match action {
            ToolbarAction::RunSelected => KeyEffect::RunSelected,
            ToolbarAction::ToggleSpace => KeyEffect::Toggle,
            ToolbarAction::Run => run_current(*ctx),
            ToolbarAction::Stop => on_command(*ctx, KeyEffect::StopCommand),
            ToolbarAction::Clear => on_command(*ctx, KeyEffect::ClearCommand),
            ToolbarAction::GitSelect => KeyEffect::GitSelect,
            ToolbarAction::ToggleFullscreen => KeyEffect::ToggleFullscreen,
            ToolbarAction::FocusTerminal => if ctx.has_active_terminal && ctx.interactive {
                KeyEffect::Focus(Focus::Terminal)
            } else {
                KeyEffect::Nothing
            },
            ToolbarAction::Quit => KeyEffect::Quit,
            ToolbarAction::BackToTree => KeyEffect::BackToTree,
            ToolbarAction::ToggleLogs => KeyEffect::ToggleLogs,
            ToolbarAction::Search => KeyEffect::StartSearch,
            ToolbarAction::ClearSearch => KeyEffect::ClearSearch,
            ToolbarAction::AcceptSearch => KeyEffect::AcceptSearch,
        },
{
    match action {
        ToolbarAction::RunSelected => KeyEffect::RunSelected,
        ToolbarAction::ToggleSpace => KeyEffect::Toggle,
        ToolbarAction::Run => run(ctx),
        ToolbarAction::Stop => for_command(ctx, KeyEffect::StopCommand),
        ToolbarAction::Clear => for_command(ctx, KeyEffect::ClearCommand),
        ToolbarAction::GitSelect => KeyEffect::GitSelect,
        ToolbarAction::ToggleFullscreen => KeyEffect::ToggleFullscreen,
        ToolbarAction::FocusTerminal => {
            if ctx.has_active_terminal && ctx.interactive {
                KeyEffect::Focus(Focus::Terminal)
            } else {
                KeyEffect::Nothing
            }
        },
        ToolbarAction::Quit => KeyEffect::Quit,
        ToolbarAction::BackToTree => KeyEffect::BackToTree,
        ToolbarAction::ToggleLogs => KeyEffect::ToggleLogs,
        ToolbarAction::Search => KeyEffect::StartSearch,
        ToolbarAction::ClearSearch => KeyEffect::ClearSearch,
        ToolbarAction::AcceptSearch => KeyEffect::AcceptSearch,
    }
}

} // verus!
