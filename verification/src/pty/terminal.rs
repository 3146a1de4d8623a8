//! Terminal updates, what they do, and the dirty flag.

use vstd::prelude::*;
use vstd::string::*;
use vstd::utf8::encode_utf8;
use crate::commands::command::Command;
use crate::text::{concat2, decimal, decimal_digits, push_decimal, push_str, text_of};

verus! {

/// How many lines of scrollback a terminal keeps unless its command says
/// otherwise.
pub const DEFAULT_SCROLLBACK_SIZE: usize = 3500;

/// How many updates may wait for each worker of a terminal.
pub const UPDATE_CHANNEL_CAPACITY: usize = 1000;

/// How many bytes the reader takes from the child at once.
pub const READ_BUFFER_SIZE: usize = 1024;

/// The smallest width and height a terminal is given.
pub const MIN_TERMINAL_SIDE: u16 = 2;

/// Errors of a terminal and its process.
#[derive(Debug)]
pub enum ProcessError {
    /// The channel to the writer of the pseudo-terminal is closed.
    WriterDisconnected,
    /// The channel to the terminal state is closed.
    UpdateChannelDisconnected,
    /// The pseudo-terminal could not be opened.
    PtyError(String),
    /// The process could not be started or waited for.
    Process(String),
}

impl ProcessError {
    /// The error as a line of text.
    pub fn message(&self) -> (r: String)
        ensures
            match self {
                ProcessError::WriterDisconnected => r@ == "Writer disconnected"@,
                ProcessError::UpdateChannelDisconnected => r@ == "Update channel disconnected"@,
                ProcessError::PtyError(m) => r@ == "Unable to open PTY: "@ + m@,
                ProcessError::Process(m) => r@ == "Process error: "@ + m@,
            },
    {
        match self {
            ProcessError::WriterDisconnected => String::from_str("Writer disconnected"),
            ProcessError::UpdateChannelDisconnected => String::from_str(
                "Update channel disconnected",
            ),
            ProcessError::PtyError(m) => concat2("Unable to open PTY: ", m.as_str()),
            ProcessError::Process(m) => concat2("Process error: ", m.as_str()),
        }
    }

    /// Whether the error only says that the process has exited already: a
    /// closed channel, which the scheduler passes over.
    pub fn is_disconnect(&self) -> (r: bool)
        ensures
            r == (self is WriterDisconnected || self is UpdateChannelDisconnected),
    {
        match self {
            ProcessError::WriterDisconnected => true,
            ProcessError::UpdateChannelDisconnected => true,
            _ => false,
        }
    }
}

/// Terminal dimensions in columns and rows.
#[derive(Debug, Clone, Copy, PartialEq, Eq, Structural)]
pub struct TerminalSize {
    pub cols: u16,
    pub rows: u16,
}

impl TerminalSize {
    /// A size of `cols` columns and `rows` rows.
    pub fn new(cols: u16, rows: u16) -> (r: Self)
        ensures
            r.cols == cols,
            r.rows == rows,
    {
        Self { cols, rows }
    }

    /// The size of a terminal that fills an area of the given width and
    /// height: the area's, but at least two columns and two rows.
    pub fn for_area(width: u16, height: u16) -> (r: Self)
        ensures
            r.cols == if width < MIN_TERMINAL_SIDE {
                MIN_TERMINAL_SIDE
            } else {
                width
            },
            r.rows == if height < MIN_TERMINAL_SIDE {
                MIN_TERMINAL_SIDE
            } else {
                height
            },
    {
        let cols = if width < MIN_TERMINAL_SIDE {
            MIN_TERMINAL_SIDE
        } else {
            width
        };
        let rows = if height < MIN_TERMINAL_SIDE {
            MIN_TERMINAL_SIDE
        } else {
            height
        };
        Self { cols, rows }
    }
}

/// The scrollback capacity when a command names none.
pub fn default_scrollback_size() -> (r: usize)
    ensures
        r == DEFAULT_SCROLLBACK_SIZE,
{
    DEFAULT_SCROLLBACK_SIZE
}

/// The scrollback capacity of a command's terminal: its own where it names
/// one, the default otherwise.
pub fn scrollback_for(command: &Command) -> (r: usize)
    ensures
        r == match command.scrollback {
            Some(n) => n,
            None => DEFAULT_SCROLLBACK_SIZE,
        },
{
    match command.scrollback {
        Some(n) => n,
        None => DEFAULT_SCROLLBACK_SIZE,
    }
}

/// What a terminal shows: the lines of its screen, how far it is scrolled
/// back, and how many lines of scrollback it holds.
#[derive(Debug)]
pub struct Output {
    pub screen: Vec<String>,
    pub scrollback_position: usize,
    pub scrollback_size: usize,
}

impl Default for Output {
    fn default() -> (r: Self)
        ensures
            r.screen@.len() == 0,
            r.scrollback_position == 0,
            r.scrollback_size == 0,
    {
        Output { screen: Vec::new(), scrollback_position: 0, scrollback_size: 0 }
    }
}

impl Output {
    /// Whether the terminal holds scrollback, and whether it is scrolled
    /// away from the bottom.
    pub fn scroll_state(&self) -> (r: (bool, bool))
        ensures
            r.0 == (self.scrollback_size > 0),
            r.1 == (self.scrollback_position > 0),
    {
        (self.scrollback_size > 0, self.scrollback_position > 0)
    }
}

/// What is sent to the worker that owns the terminal state.
#[derive(Debug)]
pub enum TerminalUpdate {
    /// Bytes read from the child.
    Process(Vec<u8>),
    /// A new size.
    Resize(TerminalSize),
    /// Bytes to show that did not come from the child.
    Echo(Vec<u8>),
    /// Scroll by this many lines; negative is towards older output.
    Scroll(isize),
    /// Scroll to this many lines above the bottom.
    SetScroll(usize),
    /// Forget the screen and the scrollback.
    Clear,
}

/// What the worker asks of the terminal parser for one update.
#[derive(Debug)]
pub enum ParserCall {
    /// Feed these bytes.
    Process(Vec<u8>),
    /// Set the size.
    SetSize { rows: u16, cols: u16 },
    /// Set the scroll position, counted from the bottom.
    SetScrollback(usize),
    /// Clear the parser.
    Clear,
    /// Leave the parser alone.
    Nothing,
}

/// The scroll position after scrolling by `delta` from `pos`: `pos - delta`,
/// kept within zero and the largest position.
pub open spec fn scrolled(pos: usize, delta: isize) -> int {
    if pos - delta < 0 {
        0
    } else if pos - delta > usize::MAX {
        usize::MAX as int
    } else {
        pos - delta
    }
}

/// The scroll position after scrolling by `delta` lines from `pos`. Scrolling
/// down by more than there is ends at the bottom.
pub fn scroll_position(pos: usize, delta: isize) -> (r: usize)
    ensures
        r == scrolled(pos, delta),
{
    if delta >= 0 {
        let down = delta as usize;
        if down > pos {
            0
        } else {
            pos - down
        }
    } else {
        let up: usize = if delta == isize::MIN {
            (isize::MAX as usize) + 1
        } else {
            (-delta) as usize
        };
        if up > usize::MAX - pos {
            usize::MAX
        } else {
            pos + up
        }
    }
}

/// What an update asks of the parser whose scroll position is `pos`.
pub open spec fn call_for(update: TerminalUpdate, pos: usize) -> ParserCall {
    match update {
        TerminalUpdate::Process(bytes) => ParserCall::Process(bytes),
        TerminalUpdate::Resize(size) => ParserCall::SetSize { rows: size.rows, cols: size.cols },
        TerminalUpdate::Echo(bytes) => ParserCall::Process(bytes),
        TerminalUpdate::Scroll(delta) => if scrolled(pos, delta) != pos {
            ParserCall::SetScrollback(scrolled(pos, delta) as usize)
        } else {
            ParserCall::Nothing
        },
        TerminalUpdate::SetScroll(rows) => ParserCall::SetScrollback(rows),
        TerminalUpdate::Clear => ParserCall::Clear,
    }
}

/// What to ask of the parser for `update`, where the parser's scroll
/// position is `pos`. A scroll that would not move asks nothing.
pub fn apply_update(update: TerminalUpdate, pos: usize) -> (r: ParserCall)
    ensures
        r == call_for(update, pos),
{
    match update {
        TerminalUpdate::Process(bytes) => ParserCall::Process(bytes),
        TerminalUpdate::Resize(size) => ParserCall::SetSize { rows: size.rows, cols: size.cols },
        TerminalUpdate::Echo(bytes) => ParserCall::Process(bytes),
        TerminalUpdate::Scroll(delta) => {
            let new_pos = scroll_position(pos, delta);
            if new_pos != pos {
                ParserCall::SetScrollback(new_pos)
            } else {
                ParserCall::Nothing
            }
        },
        TerminalUpdate::SetScroll(rows) => ParserCall::SetScrollback(rows),
        TerminalUpdate::Clear => ParserCall::Clear,
    }
}

/// What is sent to the worker that owns the pseudo-terminal's write end.
#[derive(Debug)]
pub enum PtyUpdate {
    /// A click of the left button at this column and row, counted from zero.
    MouseClick(u16, u16),
    /// A turn of the wheel at this column and row.
    MouseScroll { up: bool, x: u16, y: u16 },
    /// A new size.
    Resize(TerminalSize),
    /// Bytes for the child's input.
    Write(Vec<u8>),
    /// Kill the child.
    KillProcess,
}

/// What the writer does for one update.
#[derive(Debug)]
pub enum PtyAction {
    /// Write this mouse report to the child; where that fails, the writer
    /// ends.
    Report(Vec<u8>),
    /// Write these bytes to the child; a failure is noted, and the writer
    /// goes on.
    Write(Vec<u8>),
    /// Resize the pseudo-terminal.
    Resize(TerminalSize),
    /// Kill the child.
    Kill,
}

/// An SGR mouse report: button, column and row counted from one, and `M`
/// for a press or `m` for a release.
pub open spec fn sgr_report(button: nat, x: u16, y: u16, press: bool) -> Seq<char> {
    "\x1b[<"@ + decimal_digits(button) + ";"@ + decimal_digits((x + 1) as nat) + ";"@
        + decimal_digits((y + 1) as nat) + if press {
        "M"@
    } else {
        "m"@
    }
}

/// The text that a mouse update writes to the child: for a click, a press
/// and a release of button 0; for the wheel, a press of button 64 when it
/// turns up and 65 when it turns down.
pub open spec fn mouse_text(update: PtyUpdate) -> Seq<char> {
    match update {
        PtyUpdate::MouseClick(x, y) => sgr_report(0, x, y, true) + sgr_report(0, x, y, false),
        PtyUpdate::MouseScroll { up, x, y } => sgr_report(
            if up {
                64
            } else {
                65
            },
            x,
            y,
            true,
        ),
        _ => Seq::empty(),
    }
}

fn push_report(out: &mut Vec<char>, button: u64, x: u16, y: u16, press: bool)
    ensures
        final(out)@ == old(out)@ + sgr_report(button as nat, x, y, press),
{
    let ghost start = out@;
    push_str(out, "\x1b[<");
    push_decimal(out, button);
    push_str(out, ";");
    push_decimal(out, x as u64 + 1);
    push_str(out, ";");
    push_decimal(out, y as u64 + 1);
    if press {
        push_str(out, "M");
    } else {
        push_str(out, "m");
    }
    assert(out@ =~= start + sgr_report(button as nat, x, y, press));
}

/// What the writer does for `update`: mouse events become SGR mouse reports
/// written to the child, bytes are written as they are, a resize and a kill
/// are passed on. A report that cannot be written ends the writer; input
/// that cannot be written does not.
pub fn pty_action(update: PtyUpdate) -> (r: PtyAction)
    ensures
        match update {
            PtyUpdate::MouseClick(_, _) => r matches PtyAction::Report(bytes) && bytes@
                == encode_utf8(mouse_text(update)),
            PtyUpdate::MouseScroll { .. } => r matches PtyAction::Report(bytes) && bytes@
                == encode_utf8(mouse_text(update)),
            PtyUpdate::Resize(size) => r == PtyAction::Resize(size),
            PtyUpdate::Write(input) => r == PtyAction::Write(input),
            PtyUpdate::KillProcess => r == PtyAction::Kill,
        },
{
    match update {
        PtyUpdate::MouseClick(x, y) => {
            let mut out: Vec<char> = Vec::new();
            push_report(&mut out, 0, x, y, true);
            push_report(&mut out, 0, x, y, false);
            assert(out@ =~= mouse_text(update));
            let text = text_of(&out);
            PtyAction::Report(text.as_str().as_bytes_vec())
        },
        PtyUpdate::MouseScroll { up, x, y } => {
            let button: u64 = if up {
                64
            } else {
                65
            };
            let mut out: Vec<char> = Vec::new();
            push_report(&mut out, button, x, y, true);
            assert(out@ =~= mouse_text(update));
            let text = text_of(&out);
            PtyAction::Report(text.as_str().as_bytes_vec())
        },
        PtyUpdate::Resize(size) => PtyAction::Resize(size),
        PtyUpdate::Write(input) => PtyAction::Write(input),
        PtyUpdate::KillProcess => PtyAction::Kill,
    }
}

/// The update for a click at column `x`, row `y`: none while the child has
/// not turned mouse reporting on.
pub fn click_update(mouse_active: bool, x: u16, y: u16) -> (r: Option<PtyUpdate>)
    ensures
        r == if mouse_active {
            Some(PtyUpdate::MouseClick(x, y))
        } else {
            None
        },
{
    if mouse_active {
        Some(PtyUpdate::MouseClick(x, y))
    } else {
        None
    }
}

/// The update for a turn of the wheel: none while the child has not turned
/// mouse reporting on, in which case the event is not forwarded.
pub fn mouse_scroll_update(mouse_active: bool, up: bool, x: u16, y: u16) -> (r: Option<PtyUpdate>)
    ensures
        r == if mouse_active {
            Some(PtyUpdate::MouseScroll { up, x, y })
        } else {
            None
        },
{
    if mouse_active {
        Some(PtyUpdate::MouseScroll { up, x, y })
    } else {
        None
    }
}

/// What happens to the dirty flag.
#[derive(Debug, Clone, Copy, PartialEq, Eq, Structural)]
pub enum FlagEvent {
    /// A batch of updates was applied to the terminal state.
    Output,
    /// The renderer has drawn the terminal and cleared the flag.
    Clear,
}

/// The flag after a history of events: set by output, unset by a clear, and
/// unset at the start.
pub open spec fn dirty_after(events: Seq<FlagEvent>) -> bool
    decreases events.len(),
{
    if events.len() == 0 {
        false
    } else {
        events.last() == FlagEvent::Output
    }
}

/// The terminal's dirty flag: set when output has arrived since the
/// renderer last cleared it.
pub struct DirtyFlag {
    dirty: bool,
    history: Ghost<Seq<FlagEvent>>,
}

impl DirtyFlag {
    /// What has happened to the flag so far.
    pub closed spec fn events(self) -> Seq<FlagEvent> {
        self.history@
    }

    /// The flag says what its history says.
    #[verifier::type_invariant]
    spec fn inv(self) -> bool {
        self.dirty == dirty_after(self.history@)
    }

    /// A flag with no history: not set.
    pub fn new() -> (r: Self)
        ensures
            r.events() == Seq::<FlagEvent>::empty(),
    {
        DirtyFlag { dirty: false, history: Ghost(Seq::empty()) }
    }

    /// Sets the flag: output has arrived.
    pub fn mark(&mut self)
        ensures
            final(self).events() == old(self).events().push(FlagEvent::Output),
    {
        *self = DirtyFlag { dirty: true, history: Ghost(self.history@.push(FlagEvent::Output)) };
    }

    /// Unsets the flag: the renderer has drawn what there was.
    pub fn clear_dirty(&mut self)
        ensures
            final(self).events() == old(self).events().push(FlagEvent::Clear),
    {
        *self = DirtyFlag { dirty: false, history: Ghost(self.history@.push(FlagEvent::Clear)) };
    }

    /// Whether output has arrived since the flag was last cleared.
    pub fn is_dirty(&self) -> (r: bool)
        ensures
            r == dirty_after(self.events()),
            r == output_since_clear(self.events()),
    {
        proof {
            use_type_invariant(self);
            lemma_dirty_between(self.history@);
        }
        self.dirty
    }
}

/// Some output has arrived and nothing has cleared the flag since.
pub open spec fn output_since_clear(events: Seq<FlagEvent>) -> bool {
    exists|i: int|
        0 <= i < events.len() && #[trigger] events[i] == FlagEvent::Output && forall|j: int|
            i < j < events.len() ==> #[trigger] events[j] != FlagEvent::Clear
}

/// The flag is set exactly between the arrival of output and the next
/// clear: after any history, it is set if and only if some output arrived
/// that no clear has followed.
pub proof fn lemma_dirty_between(events: Seq<FlagEvent>)
    ensures
        dirty_after(events) == output_since_clear(events),
{
    if events.len() > 0 {
        let last = events.len() - 1;
        if events[last] == FlagEvent::Output {
            assert(events[last] == FlagEvent::Output && forall|j: int|
                last < j < events.len() ==> #[trigger] events[j] != FlagEvent::Clear);
        } else {
            if output_since_clear(events) {
                let i = choose|i: int|
                    0 <= i < events.len() && #[trigger] events[i] == FlagEvent::Output
                        && forall|j: int|
                        i < j < events.len() ==> #[trigger] events[j] != FlagEvent::Clear;
                assert(events[last] != FlagEvent::Clear);
            }
        }
    }
}

} // verus!
