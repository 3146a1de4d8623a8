//! State of the interface that does not depend on how it is drawn.

use vstd::prelude::*;
use vstd::string::*;
use crate::text::{chars_of, text_of};

verus! {

/// Mathematical model of [`CommandStatus`].
pub enum StatusView {
    Pending,
    Running,
    Success,
    Failure(u32),
    Error(Seq<char>),
    WaitingForDeps,
}

/// Execution status of a command.
#[derive(Debug, PartialEq)]
pub enum CommandStatus {
    Pending,
    Running,
    Success,
    Failure(u32),
    Error(String),
    WaitingForDeps,
}

impl View for CommandStatus {
    type V = StatusView;

    open spec fn view(&self) -> StatusView {
        match self {
            CommandStatus::Pending => StatusView::Pending,
            CommandStatus::Running => StatusView::Running,
            CommandStatus::Success => StatusView::Success,
            CommandStatus::Failure(code) => StatusView::Failure(*code),
            CommandStatus::Error(m) => StatusView::Error(m@),
            CommandStatus::WaitingForDeps => StatusView::WaitingForDeps,
        }
    }
}

impl Clone for CommandStatus {
    fn clone(&self) -> (r: Self)
        ensures
            r@ == self@,
    {
        match self {
            CommandStatus::Pending => CommandStatus::Pending,
            CommandStatus::Running => CommandStatus::Running,
            CommandStatus::Success => CommandStatus::Success,
            CommandStatus::Failure(code) => CommandStatus::Failure(*code),
            CommandStatus::Error(m) => CommandStatus::Error(m.clone()),
            CommandStatus::WaitingForDeps => CommandStatus::WaitingForDeps,
        }
    }
}

impl CommandStatus {
    /// Whether the command is running.
    pub fn is_running(&self) -> (r: bool)
        ensures
            r == (self@ is Running),
    {
        match self {
            CommandStatus::Running => true,
            _ => false,
        }
    }

    /// Whether the command has run to an end: success, failure or error.
    pub fn has_finished(&self) -> (r: bool)
        ensures
            r == (self@ is Success || self@ is Failure || self@ is Error),
    {
        match self {
            CommandStatus::Success => true,
            CommandStatus::Failure(_) => true,
            CommandStatus::Error(_) => true,
            _ => false,
        }
    }
}

/// How many events may wait for the main loop.
pub const EVENT_CHANNEL_CAPACITY: usize = 256;

/// The width of the tree pane at the start, in columns.
pub const INITIAL_TREE_WIDTH: u16 = 30;

/// Which pane currently has keyboard focus.
#[derive(Debug, Clone, Copy, PartialEq, Eq, Structural)]
pub enum Focus {
    Tree,
    Terminal,
}

/// Mathematical model of [`SearchState`].
pub enum SearchView {
    Inactive,
    Editing(Seq<char>),
    Active(Seq<char>),
}

/// State machine for the search bar.
#[derive(Debug)]
pub enum SearchState {
    /// No search.
    Inactive,
    /// The user is typing in the search bar.
    Editing(String),
    /// The filter is applied and the user moves among the results.
    Active(String),
}

impl View for SearchState {
    type V = SearchView;

    open spec fn view(&self) -> SearchView {
        match self {
            SearchState::Inactive => SearchView::Inactive,
            SearchState::Editing(q) => SearchView::Editing(q@),
            SearchState::Active(q) => SearchView::Active(q@),
        }
    }
}

impl Default for SearchState {
    fn default() -> (r: Self)
        ensures
            r@ == SearchView::Inactive,
    {
        SearchState::Inactive
    }
}

impl Clone for SearchState {
    fn clone(&self) -> (r: Self)
        ensures
            r@ == self@,
    {
        match self {
            SearchState::Inactive => SearchState::Inactive,
            SearchState::Editing(q) => SearchState::Editing(q.clone()),
            SearchState::Active(q) => SearchState::Active(q.clone()),
        }
    }
}

impl SearchState {
    /// The current query string, if any.
    pub fn query(&self) -> (r: Option<&str>)
        ensures
            match self@ {
                SearchView::Inactive => r is None,
                SearchView::Editing(q) => r matches Some(s) && s@ == q,
                SearchView::Active(q) => r matches Some(s) && s@ == q,
            },
    {
        match self {
            SearchState::Inactive => None,
            SearchState::Editing(q) => Some(q.as_str()),
            SearchState::Active(q) => Some(q.as_str()),
        }
    }

    /// Whether the user is typing in the search bar.
    pub fn is_editing(&self) -> (r: bool)
        ensures
            r == (self@ is Editing),
    {
        match self {
            SearchState::Editing(_) => true,
            _ => false,
        }
    }

    /// Whether a filter is applied but the user is not editing.
    pub fn is_filtering(&self) -> (r: bool)
        ensures
            r == (self@ is Active),
    {
        match self {
            SearchState::Active(_) => true,
            _ => false,
        }
    }

    /// Whether any search is going on, editing or applied.
    pub fn has_query(&self) -> (r: bool)
        ensures
            r == !(self@ is Inactive),
    {
        match self {
            SearchState::Inactive => false,
            _ => true,
        }
    }

    /// Appends a character; only while editing.
    pub fn push_char(&mut self, c: char)
        ensures
            final(self)@ == match old(self)@ {
                SearchView::Editing(q) => SearchView::Editing(q.push(c)),
                other => other,
            },
    {
        let next = match &*self {
            SearchState::Editing(q) => {
                let mut chars = chars_of(q.as_str());
                chars.push(c);
                Some(text_of(&chars))
            },
            _ => None,
        };
        match next {
            Some(q) => {
                *self = SearchState::Editing(q);
            },
            None => {},
        }
    }

    /// Removes the last character; only while editing.
    pub fn pop_char(&mut self)
        ensures
            final(self)@ == match old(self)@ {
                SearchView::Editing(q) => SearchView::Editing(
                    if q.len() > 0 {
                        q.drop_last()
                    } else {
                        q
                    },
                ),
                other => other,
            },
    {
        let next = match &*self {
            SearchState::Editing(q) => {
                let mut chars = chars_of(q.as_str());
                if chars.len() > 0 {
                    chars.pop();
                }
                Some(text_of(&chars))
            },
            _ => None,
        };
        match next {
            Some(q) => {
                *self = SearchState::Editing(q);
            },
            None => {},
        }
    }

    /// Accepts the current query: from editing to active.
    pub fn accept(&mut self)
        ensures
            final(self)@ == match old(self)@ {
                SearchView::Editing(q) => SearchView::Active(q),
                other => other,
            },
    {
        let next = match &*self {
            SearchState::Editing(q) => Some(q.clone()),
            _ => None,
        };
        match next {
            Some(q) => {
                *self = SearchState::Active(q);
            },
            None => {},
        }
    }

    /// Resumes editing: from active to editing.
    pub fn resume_editing(&mut self)
        ensures
            final(self)@ == match old(self)@ {
                SearchView::Active(q) => SearchView::Editing(q),
                other => other,
            },
    {
        let next = match &*self {
            SearchState::Active(q) => Some(q.clone()),
            _ => None,
        };
        match next {
            Some(q) => {
                *self = SearchState::Editing(q);
            },
            None => {},
        }
    }
}

/// Mouse interaction state: drags, the last click, the hovered row.
#[derive(Debug)]
pub struct MouseState {
    /// Is the tree panel being resized by a drag?
    pub resizing: bool,
    /// Is the scrollbar being dragged?
    pub scrollbar_dragging: bool,
    /// When the last click was, in milliseconds, and on which row.
    pub last_click: Option<(u64, usize)>,
    /// The tree row under the pointer.
    pub hover_row: Option<usize>,
}

impl Default for MouseState {
    fn default() -> (r: Self)
        ensures
            !r.resizing,
            !r.scrollbar_dragging,
            r.last_click is None,
            r.hover_row is None,
    {
        MouseState { resizing: false, scrollbar_dragging: false, last_click: None, hover_row: None }
    }
}

/// How close in time two clicks on a row must be to count as a double
/// click, in milliseconds.
pub const DOUBLE_CLICK_MILLIS: u64 = 400;

impl MouseState {
    /// Whether a click on `row` at time `now`, away from the selection
    /// mark, is the second of a double click: the last click was on the same
    /// row less than 400 ms ago.
    pub fn is_double_click(&self, now: u64, row: usize, on_orb: bool) -> (r: bool)
        ensures
            r == (!on_orb && (self.last_click matches Some((t, last_row)) && last_row == row
                && now >= t && now - t < DOUBLE_CLICK_MILLIS)),
    {
        if on_orb {
            return false;
        }
        match self.last_click {
            Some((t, last_row)) => last_row == row && now >= t && now - t < DOUBLE_CLICK_MILLIS,
            None => false,
        }
    }
}

/// The first row shown so that the cursor row is visible in a window of
/// `height` rows that showed `scroll` first.
pub open spec fn scroll_to_show(cursor: usize, scroll: usize, height: usize) -> int {
    if height == 0 {
        scroll as int
    } else if cursor < scroll {
        cursor as int
    } else if cursor >= scroll + height {
        cursor - height + 1
    } else {
        scroll as int
    }
}

/// Adjusts the tree's scroll offset so that the cursor row is visible
/// within `height` rows.
pub fn ensure_cursor_visible(cursor: usize, tree_scroll: usize, height: usize) -> (r: usize)
    ensures
        r == scroll_to_show(cursor, tree_scroll, height),
{
    if height == 0 {
        tree_scroll
    } else if cursor < tree_scroll {
        cursor
    } else if cursor - tree_scroll >= height {
        cursor - height + 1
    } else {
        tree_scroll
    }
}

} // verus!
