//! How the screen is divided, and what each part shows.

use vstd::prelude::*;
use vstd::string::*;
use crate::text::{chars_of, concat3, decimal, decimal_digits};
use crate::tui::context_menu::Rect;
use crate::tui::log_state::Level;

verus! {

/// In which direction an area is split.
#[derive(Debug, Clone, Copy, PartialEq, Eq, Structural)]
pub enum Direction {
    Horizontal,
    Vertical,
}

/// How much of an area a part asks for.
#[derive(Debug, Clone, Copy, PartialEq, Eq, Structural)]
pub enum Constraint {
    /// At least this many cells.
    Min(u16),
    /// Exactly this many cells.
    Length(u16),
}

/// Whether `part` reaches across `area` in the direction in which the area
/// was not split: a row has the columns of the area, a column its rows.
pub open spec fn reaches_across(direction: Direction, area: Rect, part: Rect) -> bool {
    match direction {
        Direction::Vertical => part.x == area.x && part.width == area.width,
        Direction::Horizontal => part.y == area.y && part.height == area.height,
    }
}

/// Builds a `ratatui::layout::Layout` with the given direction and
/// constraints, without margin, and calls its `split` on the area.
///
/// Where the parts begin and end is worked out by a constraint solver, and
/// nothing is claimed of it. The contract claims what the code around the
/// solver shows of every outcome: there is one part for each constraint,
/// and each part reaches across the area. The documentation of `split`
/// names no panic.
#[verifier::external_body]
fn split(direction: Direction, area: Rect, constraints: &Vec<Constraint>) -> (r: Vec<Rect>)
    ensures
        r@.len() == constraints@.len(),
        forall|i: int| 0 <= i < r@.len() ==> reaches_across(direction, area, #[trigger] r@[i]),
{
    let list = constraints.iter().map(|c| match c {
        Constraint::Min(n) => ratatui::layout::Constraint::Min(*n),
        Constraint::Length(n) => ratatui::layout::Constraint::Length(*n),
    });
    let layout = ratatui::layout::Layout::default().constraints(list).direction(match direction {
        Direction::Horizontal => ratatui::layout::Direction::Horizontal,
        Direction::Vertical => ratatui::layout::Direction::Vertical,
    });
    let Rect { x, y, width, height } = area;
    let parts = layout.split(ratatui::layout::Rect { x, y, width, height });
    parts.iter().map(|r| Rect { x: r.x, y: r.y, width: r.width, height: r.height }).collect()
}

/// The narrowest that the terminal pane is made beside the tree.
pub const MIN_TERMINAL_WIDTH: u16 = 20;

/// How the screen is divided.
#[derive(Debug, Clone, Copy, PartialEq, Eq, Structural)]
pub struct PaneLayout {
    /// The row of the toolbar.
    pub toolbar: Rect,
    /// The tree pane with its search bar; empty in full screen.
    pub tree: Rect,
    /// The row of the search bar, where a search is going on.
    pub search: Option<Rect>,
    /// The rows of the tree.
    pub tree_rows: Rect,
    /// The column between the panes; empty in full screen.
    pub separator: Rect,
    /// The terminal pane.
    pub terminal: Rect,
}

/// The constraints of the two rows of the screen: at least three rows for
/// everything above the toolbar, and one for the toolbar.
pub open spec fn outer_rows() -> Seq<Constraint> {
    seq![Constraint::Min(3), Constraint::Length(1)]
}

/// The width of the tree pane in a main area of the given width: what was
/// asked for, but leaving twenty columns for the terminal.
pub open spec fn tree_width_in(main_width: u16, tree_width: u16) -> u16 {
    let most = if main_width < MIN_TERMINAL_WIDTH {
        0u16
    } else {
        (main_width - MIN_TERMINAL_WIDTH) as u16
    };
    if tree_width < most {
        tree_width
    } else {
        most
    }
}

/// The constraints of the three columns of the main area: the tree, one
/// column for the separator, and at least twenty for the terminal.
pub open spec fn main_columns(main_width: u16, tree_width: u16) -> Seq<Constraint> {
    seq![
        Constraint::Length(tree_width_in(main_width, tree_width)),
        Constraint::Length(1),
        Constraint::Min(MIN_TERMINAL_WIDTH),
    ]
}

/// The constraints of the rows of the tree pane: one for the search bar,
/// where a search is going on, and at least one for the tree.
pub open spec fn tree_pane_rows(has_search: bool) -> Seq<Constraint> {
    if has_search {
        seq![Constraint::Length(1), Constraint::Min(1)]
    } else {
        seq![Constraint::Min(1)]
    }
}

/// The constraints of the two rows of the screen.
pub fn outer_constraints() -> (r: Vec<Constraint>)
    ensures
        r@ == outer_rows(),
{
    let mut rows: Vec<Constraint> = Vec::new();
    rows.push(Constraint::Min(3));
    rows.push(Constraint::Length(1));
    assert(rows@ =~= outer_rows());
    rows
}

/// The constraints of the three columns of a main area of the given width.
pub fn column_constraints(main_width: u16, tree_width: u16) -> (r: Vec<Constraint>)
    ensures
        r@ == main_columns(main_width, tree_width),
{
    let most: u16 = if main_width < MIN_TERMINAL_WIDTH {
        0
    } else {
        main_width - MIN_TERMINAL_WIDTH
    };
    let width = if tree_width < most {
        tree_width
    } else {
        most
    };
    let mut cols: Vec<Constraint> = Vec::new();
    cols.push(Constraint::Length(width));
    cols.push(Constraint::Length(1));
    cols.push(Constraint::Min(MIN_TERMINAL_WIDTH));
    assert(cols@ =~= main_columns(main_width, tree_width));
    cols
}

/// The constraints of the rows of the tree pane.
pub fn tree_constraints(has_search: bool) -> (r: Vec<Constraint>)
    ensures
        r@ == tree_pane_rows(has_search),
{
    let mut rows: Vec<Constraint> = Vec::new();
    if has_search {
        rows.push(Constraint::Length(1));
    }
    rows.push(Constraint::Min(1));
    assert(rows@ =~= tree_pane_rows(has_search));
    rows
}

/// An area without cells.
pub open spec fn no_area() -> Rect {
    Rect { x: 0, y: 0, width: 0, height: 0 }
}

/// The layout in full screen, from the two rows of the screen: the
/// terminal has everything above the toolbar, and there is no tree.
pub open spec fn fullscreen_layout(outer: Seq<Rect>) -> PaneLayout {
    PaneLayout {
        toolbar: outer[1],
        tree: no_area(),
        search: None,
        tree_rows: no_area(),
        separator: no_area(),
        terminal: outer[0],
    }
}

/// The layout with the tree, from the two rows of the screen, the three
/// columns of the main area and the rows of the tree pane.
pub open spec fn split_layout(
    outer: Seq<Rect>,
    columns: Seq<Rect>,
    rows: Seq<Rect>,
    has_search: bool,
) -> PaneLayout {
    PaneLayout {
        toolbar: outer[1],
        tree: columns[0],
        search: if has_search {
            Some(rows[0])
        } else {
            None
        },
        tree_rows: if has_search {
            rows[1]
        } else {
            rows[0]
        },
        separator: columns[1],
        terminal: columns[2],
    }
}

/// Puts the layout together in full screen.
pub fn arrange_fullscreen(outer: &Vec<Rect>) -> (r: PaneLayout)
    requires
        outer@.len() == 2,
    ensures
        r == fullscreen_layout(outer@),
{
    let none = Rect { x: 0, y: 0, width: 0, height: 0 };
    PaneLayout {
        toolbar: outer[1],
        tree: none,
        search: None,
        tree_rows: none,
        separator: none,
        terminal: outer[0],
    }
}

/// Puts the layout together from the parts of the three splits.
pub fn arrange(outer: &Vec<Rect>, columns: &Vec<Rect>, rows: &Vec<Rect>, has_search: bool) -> (r:
    PaneLayout)
    requires
        outer@.len() == 2,
        columns@.len() == 3,
        rows@.len() == tree_pane_rows(has_search).len(),
    ensures
        r == split_layout(outer@, columns@, rows@, has_search),
{
    PaneLayout {
        toolbar: outer[1],
        tree: columns[0],
        search: if has_search {
            Some(rows[0])
        } else {
            None
        },
        tree_rows: if has_search {
            rows[1]
        } else {
            rows[0]
        },
        separator: columns[1],
        terminal: columns[2],
    }
}

/// What holds of a layout however the areas were divided: the toolbar and
/// what is above it reach across the screen; in full screen there is no
/// tree; otherwise tree, separator and terminal stand side by side over
/// the same rows, and the search bar and the rows of the tree reach across
/// the tree pane.
pub open spec fn layout_sound(size: Rect, fullscreen: bool, has_search: bool, r: PaneLayout) -> bool {
    &&& reaches_across(Direction::Vertical, size, r.toolbar)
    &&& if fullscreen {
        &&& reaches_across(Direction::Vertical, size, r.terminal)
        &&& r.tree == no_area()
        &&& r.tree_rows == no_area()
        &&& r.separator == no_area()
        &&& r.search is None
    } else {
        &&& r.tree.y == r.terminal.y && r.tree.height == r.terminal.height
        &&& r.separator.y == r.terminal.y && r.separator.height == r.terminal.height
        &&& reaches_across(Direction::Vertical, r.tree, r.tree_rows)
        &&& (r.search is Some <==> has_search)
        &&& r.search matches Some(bar) ==> reaches_across(Direction::Vertical, r.tree, bar)
    }
}

/// Divides the screen: the toolbar in the last row; above it the terminal
/// alone in full screen, and else the tree, a separator and the terminal,
/// with a search bar above the tree while a search is going on.
pub fn pane_layout(size: Rect, tree_width: u16, fullscreen: bool, has_search: bool) -> (r:
    PaneLayout)
    ensures
        layout_sound(size, fullscreen, has_search, r),
{
    let outer = split(Direction::Vertical, size, &outer_constraints());
    if fullscreen {
        return arrange_fullscreen(&outer);
    }
    let main = outer[0];
    let columns = split(
        Direction::Horizontal,
        main,
        &column_constraints(main.width, tree_width),
    );
    let rows = split(Direction::Vertical, columns[0], &tree_constraints(has_search));
    arrange(&outer, &columns, &rows, has_search)
}

/// Which entries of the log a pane shows.
#[derive(Debug, Clone, Copy, PartialEq, Eq, Structural)]
pub struct LogWindow {
    /// The first entry shown, and the one after the last.
    pub start: usize,
    pub end: usize,
    /// How far the pane can scroll at most, and how far it is scrolled.
    pub max_scroll: usize,
    pub scroll: usize,
}

/// The window on `count` entries for a pane of `height` rows that is
/// scrolled up by `log_scroll` entries from the newest: the scroll is cut
/// to what there is, and the window ends that many entries before the end.
pub open spec fn window_of(count: usize, height: usize, log_scroll: usize) -> LogWindow {
    let max_scroll = if count < height {
        0
    } else {
        count - height
    };
    let scroll = if log_scroll < max_scroll {
        log_scroll as int
    } else {
        max_scroll
    };
    LogWindow {
        start: (if count < height + scroll {
            0
        } else {
            count - height - scroll
        }) as usize,
        end: (count - scroll) as usize,
        max_scroll: max_scroll as usize,
        scroll: scroll as usize,
    }
}

/// Which entries of the log a pane of `height` rows shows.
pub fn log_window(count: usize, height: usize, log_scroll: usize) -> (r: LogWindow)
    ensures
        r == window_of(count, height, log_scroll),
        r.start <= r.end <= count,
{
    let max_scroll = if count < height {
        0
    } else {
        count - height
    };
    let scroll = if log_scroll < max_scroll {
        log_scroll
    } else {
        max_scroll
    };
    let end = count - scroll;
    let start = if end < height {
        0
    } else {
        end - height
    };
    LogWindow { start, end, max_scroll, scroll }
}

/// The name of a level, padded to five columns.
pub fn level_label(level: Level) -> (r: &'static str)
    ensures
        r@ == match level {
            Level::Error => "ERROR"@,
            Level::Warn => "WARN "@,
            Level::Info => "INFO "@,
            Level::Debug => "DEBUG"@,
            Level::Trace => "TRACE"@,
        },
{
    match level {
        Level::Error => "ERROR",
        Level::Warn => "WARN ",
        Level::Info => "INFO ",
        Level::Debug => "DEBUG",
        Level::Trace => "TRACE",
    }
}

/// Where the thumb of a scrollbar stands, counted from the top, for a pane
/// that is scrolled back by `scrolled` of `total` lines.
pub fn scrollbar_position(total: usize, scrolled: usize) -> (r: usize)
    ensures
        r == if scrolled > total {
            0
        } else {
            total - scrolled
        },
{
    if scrolled > total {
        0
    } else {
        total - scrolled
    }
}

/// The constraints of the two rows of the log pane: one for the header,
/// and at least one for the entries.
pub open spec fn log_rows() -> Seq<Constraint> {
    seq![Constraint::Length(1), Constraint::Min(1)]
}

/// The constraints of the two rows of the log pane.
pub fn log_constraints() -> (r: Vec<Constraint>)
    ensures
        r@ == log_rows(),
{
    let mut rows: Vec<Constraint> = Vec::new();
    rows.push(Constraint::Length(1));
    rows.push(Constraint::Min(1));
    assert(rows@ =~= log_rows());
    rows
}

/// Divides the log pane into its header and the area of the entries; both
/// reach across the pane.
pub fn log_layout(area: Rect) -> (r: (Rect, Rect))
    ensures
        reaches_across(Direction::Vertical, area, r.0),
        reaches_across(Direction::Vertical, area, r.1),
{
    let parts = split(Direction::Vertical, area, &log_constraints());
    (parts[0], parts[1])
}

/// The header of the log pane, with the number of entries.
pub fn log_header(count: usize) -> (r: String)
    ensures
        r@ == " Logs ("@ + decimal_digits(count as nat) + ") "@,
{
    concat3(" Logs (", decimal(count as u64).as_str(), ") ")
}

/// What is shown where the log has no entries.
pub const NO_LOGS: &'static str = "No log messages yet.";

/// The scrollbar of the log pane: how far it reaches and where its thumb
/// stands; none where every entry fits.
pub fn log_scrollbar(count: usize, height: usize, log_scroll: usize) -> (r: Option<(usize, usize)>)
    ensures
        r == if count > height {
            Some(
                (
                    window_of(count, height, log_scroll).max_scroll,
                    (window_of(count, height, log_scroll).max_scroll - window_of(
                        count,
                        height,
                        log_scroll,
                    ).scroll) as usize,
                ),
            )
        } else {
            None
        },
{
    if count > height {
        let window = log_window(count, height, log_scroll);
        Some((window.max_scroll, window.max_scroll - window.scroll))
    } else {
        None
    }
}

/// How many rows and columns of a screen are drawn in an area: those that
/// both have.
pub fn drawn_cells(area: &Rect, screen_rows: u16, screen_cols: u16) -> (r: (u16, u16))
    ensures
        r.0 == if area.height < screen_rows {
            area.height
        } else {
            screen_rows
        },
        r.1 == if area.width < screen_cols {
            area.width
        } else {
            screen_cols
        },
{
    (
        if area.height < screen_rows {
            area.height
        } else {
            screen_rows
        },
        if area.width < screen_cols {
            area.width
        } else {
            screen_cols
        },
    )
}

/// The character drawn for a cell of the screen: the first of its
/// contents, and a blank where it is empty.
pub fn cell_char(contents: &str) -> (r: char)
    ensures
        r == if contents@.len() == 0 {
            ' '
        } else {
            contents@[0]
        },
{
    let chars = chars_of(contents);
    if chars.len() == 0 {
        ' '
    } else {
        chars[0]
    }
}

/// The cell of an area that lies `row` rows and `col` columns from its
/// corner, where it lies in the area.
pub open spec fn cell_in(area: Rect, row: u16, col: u16) -> Option<(u16, u16)> {
    if col < area.width && row < area.height && area.x + col < u16::MAX && area.y + row
        < u16::MAX {
        Some(((area.x + col) as u16, (area.y + row) as u16))
    } else {
        None
    }
}

/// Where the cursor of the screen is drawn in an area: nowhere where it is
/// hidden or lies outside.
pub fn cursor_cell(area: &Rect, hidden: bool, cursor_row: u16, cursor_col: u16) -> (r: Option<
    (u16, u16),
>)
    ensures
        r == if hidden {
            None
        } else {
            cell_in(*area, cursor_row, cursor_col)
        },
{
    if hidden {
        return None;
    }
    if cursor_col < area.width && cursor_row < area.height && cursor_col < u16::MAX - area.x
        && cursor_row < u16::MAX - area.y {
        Some((area.x + cursor_col, area.y + cursor_row))
    } else {
        None
    }
}

} // verus!
