//! The server's state of one pane: generations, row numbering, recorded shell markers, client
//! viewports, and what a batch of output changes in them.
//!
//! The terminal device is driven from outside. Operations answer with what to do with it.
use crate::clipboard::wrap_bracketed_paste;
use crate::cwd::{directory_of, percent_decode};
use crate::emulator::{Emulator, EmulatorStep, EventView};
use crate::grid_sync::{
    FullGridSnapshot, GridDiff, GridDiffRing, GridUpdate, RowChange, ScrollbackBuffer,
};
use crate::marker_walk::{
    clamp_column, has_media, merge_boundaries, take_cursor, Boundary, PendingMediaCursor, ScanEvent,
};
use crate::osc::{OscEvent, OscScanner, ShellMarkerKind};
use crate::row_addressing::{RowAddressing, WalkPoint};
use crate::sync_update::SyncTracker;
use crate::text::same_text;
use crate::text_map::TextMap;
use crate::typed_events::{place_media, PaneAction, PaneMedia, PendingTypedEvents};
use std::collections::VecDeque;
use vstd::prelude::*;
use vstd::string::*;
use vstd::utf8::*;

verus! {

/// One attached client's viewport, in grid cells.
#[derive(Clone, Copy, Debug, PartialEq, Eq, Structural)]
pub struct PaneViewport {
    pub cols: u32,
    pub rows: u32,
}

/// Sizes that the protocol can carry.
#[derive(Clone, Copy, Debug, PartialEq, Eq, Structural)]
pub struct GridLimits {
    pub max_cols: u32,
    pub max_rows: u32,
    pub max_cells: u64,
}

/// Why a size is refused.
#[derive(Clone, Copy, Debug, PartialEq, Eq, Structural)]
pub enum PaneSizeError {
    /// The protocol cannot carry a grid of this size.
    Grid,
    /// The terminal device cannot have this many rows.
    PtyRows,
    /// The terminal device cannot have this many columns.
    PtyCols,
}

/// The most columns that the protocol can carry.
pub const MAX_GRID_COLS: u32 = 4096;

/// The most rows that the protocol can carry.
pub const MAX_GRID_ROWS: u32 = 4096;

/// The most cells that the protocol can carry.
pub const MAX_GRID_CELLS: u64 = 4_194_304;

impl Default for GridLimits {
    fn default() -> (limits: Self)
        ensures
            limits == (GridLimits {
                max_cols: MAX_GRID_COLS,
                max_rows: MAX_GRID_ROWS,
                max_cells: MAX_GRID_CELLS,
            }),
    {
        GridLimits {
            max_cols: MAX_GRID_COLS,
            max_rows: MAX_GRID_ROWS,
            max_cells: MAX_GRID_CELLS,
        }
    }
}

impl GridLimits {
    /// Whether a grid of this size can be carried.
    pub open spec fn admits(self, cols: u32, rows: u32) -> bool {
        1 <= cols <= self.max_cols && 1 <= rows <= self.max_rows && cols * rows <= self.max_cells
    }
}

/// Why a request for scrollback is refused.
#[derive(Clone, Copy, Debug, PartialEq, Eq, Structural)]
pub enum ScrollbackError {
    /// The direction is neither up nor down.
    InvalidDirection,
    /// The answer would hold more cells than the protocol can carry.
    CountTooLarge,
}

/// Check a request for scrollback before anything is allocated for it. Direction 0 is up and 1
/// is down; the lines asked for have as many cells as the pane has columns.
pub fn check_scrollback_request(
    limits: &GridLimits,
    cols: u32,
    direction: u32,
    count: u32,
) -> (checked: Result<(), ScrollbackError>)
    ensures
        match checked {
            Ok(_) => direction <= 1 && count * cols <= limits.max_cells,
            Err(ScrollbackError::InvalidDirection) => direction > 1,
            Err(ScrollbackError::CountTooLarge) => direction <= 1 && count * cols > limits.max_cells,
        },
{
    if direction > 1 {
        return Err(ScrollbackError::InvalidDirection);
    }
    assert(count * cols <= 0xffff_fffe_0000_0001) by (nonlinear_arith)
        requires
            count <= 0xffff_ffff,
            cols <= 0xffff_ffff,
    ;
    if count as u64 * cols as u64 > limits.max_cells {
        return Err(ScrollbackError::CountTooLarge);
    }
    Ok(())
}

/// The version that a pane's history starts with, from a number drawn by chance: never zero.
pub fn initial_history_version(random: u64) -> (version: u64)
    ensures
        version == (if random == 0 {
            1
        } else {
            random
        }),
{
    if random == 0 {
        1
    } else {
        random
    }
}

/// Reject sizes that the protocol cannot carry.
pub fn checked_grid_dimensions(limits: &GridLimits, cols: u32, rows: u32) -> (checked: Result<
    (),
    PaneSizeError,
>)
    ensures
        checked == (if limits.admits(cols, rows) {
            Ok::<(), PaneSizeError>(())
        } else {
            Err(PaneSizeError::Grid)
        }),
{
    assert(0 <= cols * rows <= 0xffff_ffff_ffff_ffff) by (nonlinear_arith)
        requires
            0 <= cols <= 0xffff_ffff,
            0 <= rows <= 0xffff_ffff,
    ;
    if cols < 1 || cols > limits.max_cols || rows < 1 || rows > limits.max_rows {
        return Err(PaneSizeError::Grid);
    }
    if cols as u64 * rows as u64 > limits.max_cells {
        return Err(PaneSizeError::Grid);
    }
    Ok(())
}

/// Whether `fit` is the smallest viewport, each axis for itself.
pub open spec fn is_min_fit(viewports: Seq<(String, PaneViewport)>, fit: PaneViewport) -> bool {
    &&& forall|i: int|
        0 <= i < viewports.len() ==> fit.cols <= (#[trigger] viewports[i]).1.cols && fit.rows
            <= viewports[i].1.rows
    &&& exists|i: int| 0 <= i < viewports.len() && (#[trigger] viewports[i]).1.cols == fit.cols
    &&& exists|i: int| 0 <= i < viewports.len() && (#[trigger] viewports[i]).1.rows == fit.rows
}

/// Min-fit across every attached client's viewport. Each dimension is minimized on its own: a
/// 100x20 and an 80x40 client yield 80x20.
pub fn min_fit(viewports: &TextMap<PaneViewport>) -> (fit: Option<PaneViewport>)
    ensures
        fit is None <==> viewports.entries@.len() == 0,
        fit matches Some(f) ==> is_min_fit(viewports.entries@, f),
{
    if viewports.entries.len() == 0 {
        return None;
    }
    let mut fit = viewports.entries[0].1;
    let ghost mut col_at: int = 0;
    let ghost mut row_at: int = 0;
    let mut i: usize = 1;
    while i < viewports.entries.len()
        invariant
            1 <= i <= viewports.entries@.len(),
            0 <= col_at < i,
            0 <= row_at < i,
            viewports.entries@[col_at].1.cols == fit.cols,
            viewports.entries@[row_at].1.rows == fit.rows,
            forall|j: int|
                0 <= j < i ==> fit.cols <= (#[trigger] viewports.entries@[j]).1.cols && fit.rows
                    <= viewports.entries@[j].1.rows,
        decreases viewports.entries@.len() - i,
    {
        let viewport = viewports.entries[i].1;
        if viewport.cols < fit.cols {
            fit.cols = viewport.cols;
            proof {
                col_at = i as int;
            }
        }
        if viewport.rows < fit.rows {
            fit.rows = viewport.rows;
            proof {
                row_at = i as int;
            }
        }
        i += 1;
    }
    assert(viewports.entries@[col_at].1.cols == fit.cols);
    assert(viewports.entries@[row_at].1.rows == fit.rows);
    Some(fit)
}

/// The min-fit of given viewports is unique.
pub proof fn law_min_fit_is_unique(
    viewports: Seq<(String, PaneViewport)>,
    a: PaneViewport,
    b: PaneViewport,
)
    requires
        is_min_fit(viewports, a),
        is_min_fit(viewports, b),
    ensures
        a == b,
{
}

/// Another attached client never makes the pane larger.
pub proof fn law_another_client_never_grows_the_pane(
    viewports: Seq<(String, PaneViewport)>,
    more: (String, PaneViewport),
    before: PaneViewport,
    after: PaneViewport,
)
    requires
        is_min_fit(viewports, before),
        is_min_fit(viewports.push(more), after),
    ensures
        after.cols <= before.cols,
        after.rows <= before.rows,
        after.cols == before.cols || after.cols == more.1.cols,
        after.rows == before.rows || after.rows == more.1.rows,
{
    let all = viewports.push(more);
    let c = choose|i: int|
        0 <= i < viewports.len() && (#[trigger] viewports[i]).1.cols == before.cols;
    let r = choose|i: int|
        0 <= i < viewports.len() && (#[trigger] viewports[i]).1.rows == before.rows;
    assert(all[c] == viewports[c] && all[r] == viewports[r]);
    let x = choose|i: int| 0 <= i < all.len() && (#[trigger] all[i]).1.cols == after.cols;
    let y = choose|i: int| 0 <= i < all.len() && (#[trigger] all[i]).1.rows == after.rows;
    if x < viewports.len() {
        assert(all[x] == viewports[x]);
    }
    if y < viewports.len() {
        assert(all[y] == viewports[y]);
    }
}

/// One OSC 133 marker, recorded at the row the shell emitted it on.
#[derive(Clone, Copy, Debug, PartialEq, Eq, Structural)]
pub struct ShellMarker {
    /// 1-based and monotonic for the lifetime of the pane.
    pub sequence: u64,
    pub kind: ShellMarkerKind,
    /// Row id in the pane's numbering; [`Pane::locate_shell_marker`] resolves it.
    pub absolute_row: u64,
    pub column: u32,
    /// Exit status of a finished command, where the shell gave one.
    pub exit_code: Option<i32>,
    /// Row-numbering epoch the id belongs to.
    pub epoch: u64,
}

/// Where a recorded marker's row can be addressed right now.
#[derive(Clone, Copy, Debug, PartialEq, Eq, Structural)]
pub enum ShellMarkerPosition {
    /// Scrollback row, `0` = oldest.
    History { index: u32 },
    /// On-screen row, `0` = top of the viewport.
    Viewport { line: u32 },
    /// The row was evicted, or its id predates a reflow, a reset or an uncounted rotation. A
    /// wrong row is worse than no row.
    Unavailable,
}

/// Markers kept per pane.
pub const MAX_RECORDED_SHELL_MARKERS: usize = 1024;

/// The largest scrollback capacity a pane accepts.
pub const MAX_SCROLLBACK_LINES: usize = 100_000;

/// Entries of a pane's diff ring.
pub const DIFF_RING_ENTRIES: usize = 64;

/// A command to run in a pane instead of the user's shell.
#[derive(Debug)]
pub struct ShellCommand {
    pub program: String,
    pub args: Vec<String>,
    pub env: TextMap<String>,
}

/// The arguments with one space before each.
pub open spec fn spaced(args: Seq<String>) -> Seq<char>
    decreases args.len(),
{
    if args.len() == 0 {
        Seq::empty()
    } else {
        spaced(args.drop_last()) + seq![' '] + args.last()@
    }
}

/// A command as one line: the program, a space, and the arguments joined by spaces.
pub open spec fn command_line(program: Seq<char>, args: Seq<String>) -> Seq<char> {
    if args.len() == 0 {
        program + seq![' ']
    } else {
        program + spaced(args)
    }
}

/// A command as one line.
pub fn command_text(command: &ShellCommand) -> (line: String)
    ensures
        line@ == command_line(command.program@, command.args@),
{
    let mut line = command.program.clone();
    if command.args.len() == 0 {
        line.push(' ');
        assert(line@ =~= command.program@ + seq![' ']);
        return line;
    }
    let mut i: usize = 0;
    assert(command.args@.take(0) =~= Seq::<String>::empty());
    assert(line@ =~= command.program@ + spaced(command.args@.take(0)));
    while i < command.args.len()
        invariant
            i <= command.args@.len(),
            line@ == command.program@ + spaced(command.args@.take(i as int)),
        decreases command.args@.len() - i,
    {
        assert(command.args@.take(i + 1).drop_last() =~= command.args@.take(i as int));
        line.push(' ');
        line.append(command.args[i].as_str());
        assert(line@ =~= command.program@ + spaced(command.args@.take(i + 1)));
        i += 1;
    }
    assert(command.args@.take(i as int) =~= command.args@);
    line
}

/// The environment every pane's child gets: terminal type, the pane's id under two names, and
/// the session where there is one.
pub open spec fn pane_env(id: Seq<char>, session_id: Seq<char>) -> Seq<(Seq<char>, Seq<char>)> {
    let base = seq![
        ("TERM"@, "xterm-256color"@),
        ("COLORTERM"@, "truecolor"@),
        ("Z3RM_PANE_ID"@, id),
        ("Z3RM_PANE"@, id),
    ];
    if session_id.len() == 0 {
        base
    } else {
        base.push(("Z3RM_SESSION"@, session_id))
    }
}

/// What a list of variables says.
pub open spec fn env_views(env: Seq<(String, String)>) -> Seq<(Seq<char>, Seq<char>)> {
    env.map_values(|e: (String, String)| (e.0@, e.1@))
}

/// The environment every pane's child gets.
pub fn pane_environment(id: &str, session_id: &str) -> (env: Vec<(String, String)>)
    ensures
        env_views(env@) == pane_env(id@, session_id@),
{
    let mut env: Vec<(String, String)> = Vec::new();
    env.push(("TERM".to_owned(), "xterm-256color".to_owned()));
    env.push(("COLORTERM".to_owned(), "truecolor".to_owned()));
    env.push(("Z3RM_PANE_ID".to_owned(), id.to_owned()));
    env.push(("Z3RM_PANE".to_owned(), id.to_owned()));
    if !session_id.is_empty() {
        env.push(("Z3RM_SESSION".to_owned(), session_id.to_owned()));
    }
    assert(env_views(env@) =~= pane_env(id@, session_id@));
    env
}

/// Pane facts read together.
#[derive(Debug)]
pub struct PaneMetadataSnapshot {
    pub title: String,
    pub generation: u64,
    pub cols: u32,
    pub rows: u32,
    pub is_alive: bool,
    pub zoomed: bool,
}

/// What a clear-screen sequence clears.
#[derive(Clone, Copy, Debug, PartialEq, Eq, Structural)]
pub enum ClearedPart {
    Below,
    Above,
    All,
    Saved,
}

/// Operations of the emulator that can change scrollback.
#[derive(Clone, Copy, Debug, PartialEq, Eq, Structural)]
pub enum HistoryOperation {
    Input,
    LineFeed,
    NewLine,
    ScrollUp,
    ScrollDown,
    InsertBlankLines,
    DeleteLines,
    ClearScreen(ClearedPart),
    ResetState,
    ReverseIndex,
    SetColor,
    ResetColor,
    AlignmentTest,
    /// A private mode is set: 3 resizes the columns, 1049 swaps the screen.
    SetPrivateMode { number: u16 },
    UnsetPrivateMode { number: u16 },
}

/// What the operations of a batch may have done to scrollback.
#[derive(Clone, Copy, Debug, PartialEq, Eq, Structural)]
pub struct HistoryMutationObserver {
    /// A full history may have rotated without changing its size.
    pub may_rotate: bool,
    /// Scrollback was discarded or renumbered wholesale.
    pub may_break_addressing: bool,
}

impl HistoryOperation {
    /// Operations that can move rows in or out of scrollback. Clearing the whole screen scrolls
    /// it into history, and clearing the saved lines empties history.
    pub open spec fn rotates(self) -> bool {
        match self {
            HistoryOperation::LineFeed
            | HistoryOperation::NewLine
            | HistoryOperation::ScrollUp
            | HistoryOperation::ScrollDown
            | HistoryOperation::InsertBlankLines
            | HistoryOperation::DeleteLines
            | HistoryOperation::ResetState
            | HistoryOperation::ReverseIndex => true,
            HistoryOperation::ClearScreen(part) => part == ClearedPart::All || part
                == ClearedPart::Saved,
            _ => false,
        }
    }

    /// Operations whose size the growth of scrollback cannot express.
    pub open spec fn breaks_addressing(self) -> bool {
        match self {
            HistoryOperation::ClearScreen(part) => part == ClearedPart::Saved,
            HistoryOperation::ResetState => true,
            HistoryOperation::SetPrivateMode { number } => number == 3 || number == 1049,
            _ => false,
        }
    }
}

impl Default for HistoryMutationObserver {
    fn default() -> (observer: Self)
        ensures
            observer == (HistoryMutationObserver { may_rotate: false, may_break_addressing: false }),
    {
        HistoryMutationObserver { may_rotate: false, may_break_addressing: false }
    }
}

impl HistoryMutationObserver {
    /// Forget what was seen.
    pub fn reset(&mut self)
        ensures
            *final(self) == (HistoryMutationObserver {
                may_rotate: false,
                may_break_addressing: false,
            }),
    {
        self.may_rotate = false;
        self.may_break_addressing = false;
    }

    /// The observer after one more operation.
    pub open spec fn observed(self, operation: HistoryOperation) -> HistoryMutationObserver {
        HistoryMutationObserver {
            may_rotate: self.may_rotate || operation.rotates(),
            may_break_addressing: self.may_break_addressing || operation.breaks_addressing(),
        }
    }

    /// Take in one operation.
    pub fn observe(&mut self, operation: HistoryOperation)
        ensures
            *final(self) == old(self).observed(operation),
    {
        match operation {
            HistoryOperation::LineFeed
            | HistoryOperation::NewLine
            | HistoryOperation::ScrollUp
            | HistoryOperation::ScrollDown
            | HistoryOperation::InsertBlankLines
            | HistoryOperation::DeleteLines
            | HistoryOperation::ReverseIndex => {
                self.may_rotate = true;
            },
            HistoryOperation::ResetState => {
                self.may_rotate = true;
                self.may_break_addressing = true;
            },
            HistoryOperation::ClearScreen(part) => {
                if part == ClearedPart::All || part == ClearedPart::Saved {
                    self.may_rotate = true;
                }
                if part == ClearedPart::Saved {
                    self.may_break_addressing = true;
                }
            },
            HistoryOperation::SetPrivateMode { number } => {
                if number == 3 || number == 1049 {
                    self.may_break_addressing = true;
                }
            },
            _ => {},
        }
    }
}

/// Changes that a synchronized update holds back until it ends.
pub struct SyncWindow {
    /// Unpublished changes have accumulated.
    pub pending_sync: bool,
    /// Dirty rows accumulated.
    pub pending_dirty_rows: Vec<usize>,
    /// The window changed state absent from row diffs.
    pub pending_full_snapshot: bool,
    /// A wakeup was postponed.
    pub pending_notify: bool,
}

impl SyncWindow {
    /// Nothing pending.
    pub fn new() -> (window: Self)
        ensures
            !window.pending_sync,
            window.pending_dirty_rows@ == Seq::<usize>::empty(),
            !window.pending_full_snapshot,
            !window.pending_notify,
    {
        SyncWindow {
            pending_sync: false,
            pending_dirty_rows: Vec::new(),
            pending_full_snapshot: false,
            pending_notify: false,
        }
    }
}

/// State of a pane's read loop that survives from batch to batch.
pub struct ReadLoopState {
    pub osc_scanner: OscScanner,
    pub osc_events: Vec<OscEvent>,
    pub window: SyncWindow,
    pub pending_media_cursor: Option<PendingMediaCursor>,
}

impl ReadLoopState {
    /// The state before the first batch.
    pub fn new() -> (state: Self)
        ensures
            state.osc_scanner@ == crate::osc::OscModel::start(),
            state.osc_scanner@.wf(),
            state.osc_events@ == Seq::<OscEvent>::empty(),
            !state.window.pending_sync && !state.window.pending_full_snapshot
                && !state.window.pending_notify,
            state.window.pending_dirty_rows@ == Seq::<usize>::empty(),
            state.pending_media_cursor is None,
    {
        ReadLoopState {
            osc_scanner: OscScanner::default(),
            osc_events: Vec::new(),
            window: SyncWindow::new(),
            pending_media_cursor: None,
        }
    }
}

/// What the read loop learned from one attempt to read.
#[derive(Clone, Copy, Debug, PartialEq, Eq, Structural)]
pub enum ReadEvent {
    /// Nothing to read before the poll ended; `sync_timed_out` when an open synchronized update
    /// has lasted too long.
    Quiet { sync_timed_out: bool },
    /// The other side closed.
    EndOfFile,
    /// Bytes arrived.
    Bytes,
    /// The read was interrupted.
    Interrupted,
    /// The read would have blocked.
    WouldBlock { sync_timed_out: bool },
    /// The read failed.
    Failed,
}

/// What the read loop does next.
#[derive(Clone, Copy, Debug, PartialEq, Eq, Structural)]
pub enum ReadAction {
    /// Publish what the synchronized update held back.
    ForceFlush,
    /// Send a postponed wakeup whose window has ended.
    FlushNotify,
    /// Feed the bytes to the pane.
    Process,
    /// Read again.
    Continue,
    /// Mark the pane dead, run its exit hook and stop.
    Stop,
}

impl ReadEvent {
    /// What the read loop does about an event.
    pub open spec fn action(self) -> ReadAction {
        match self {
            ReadEvent::Quiet { sync_timed_out } => if sync_timed_out {
                ReadAction::ForceFlush
            } else {
                ReadAction::FlushNotify
            },
            ReadEvent::EndOfFile => ReadAction::Stop,
            ReadEvent::Bytes => ReadAction::Process,
            ReadEvent::Interrupted => ReadAction::Continue,
            ReadEvent::WouldBlock { sync_timed_out } => if sync_timed_out {
                ReadAction::ForceFlush
            } else {
                ReadAction::Continue
            },
            ReadEvent::Failed => ReadAction::Stop,
        }
    }
}

/// What the read loop does about an event.
pub fn read_loop_action(event: ReadEvent) -> (action: ReadAction)
    ensures
        action == event.action(),
{
    match event {
        ReadEvent::Quiet { sync_timed_out } => if sync_timed_out {
            ReadAction::ForceFlush
        } else {
            ReadAction::FlushNotify
        },
        ReadEvent::EndOfFile | ReadEvent::Failed => ReadAction::Stop,
        ReadEvent::Bytes => ReadAction::Process,
        ReadEvent::Interrupted => ReadAction::Continue,
        ReadEvent::WouldBlock { sync_timed_out } => if sync_timed_out {
            ReadAction::ForceFlush
        } else {
            ReadAction::Continue
        },
    }
}

/// How long to poll for output, in milliseconds: briefly while a synchronized update is open,
/// so that a quiet terminal still reaches its timeout.
pub fn poll_timeout(in_sync: bool) -> (millis: i32)
    ensures
        millis == (if in_sync {
            25i32
        } else {
            250i32
        }),
{
    if in_sync {
        25
    } else {
        250
    }
}

/// What was read around one parsed batch.
pub struct BatchReading {
    /// A synchronized update is open at the end of the batch.
    pub in_sync: bool,
    /// A synchronized update ended within the batch.
    pub sync_ended: bool,
    /// Rows the emulator reports damaged.
    pub dirty_rows: Vec<usize>,
    /// Cursor, cursor style, display offset or modes differ.
    pub render_state_changed: bool,
    pub history_size_before: usize,
    pub history_size_after: usize,
    /// The cursor is on the row it was on before.
    pub cursor_row_unchanged: bool,
    pub alt_screen_changed: bool,
    pub bracketed_paste: bool,
    pub observer: HistoryMutationObserver,
    /// The batch completed or deleted media.
    pub has_media: bool,
}

/// One generation to publish.
#[derive(Debug)]
pub struct GenerationRequest {
    /// Rows to diff, ascending, each once.
    pub dirty_rows: Vec<usize>,
    pub requires_full_snapshot: bool,
    /// Wake clients even inside their window.
    pub force_broadcast: bool,
}

impl BatchReading {
    /// Whether cached history is stale: its size changed, a full history may have rotated in
    /// place, or rows were readdressed.
    pub open spec fn history_changed(self, capacity: u64) -> bool {
        ||| self.history_size_before != self.history_size_after
        ||| capacity > 0 && self.history_size_after >= capacity && self.cursor_row_unchanged
            && self.observer.may_rotate
        ||| self.history_size_after != 0 && self.observer.may_break_addressing
    }

    /// Whether the grid looks different.
    pub open spec fn grid_changed(self, capacity: u64) -> bool {
        self.dirty_rows@.len() > 0 || self.render_state_changed || self.history_changed(capacity)
    }

    /// The rows that a synchronized update holds back after the batch, given those before.
    pub open spec fn held_back(self, rows: Seq<usize>, capacity: u64) -> Seq<usize> {
        if self.grid_changed(capacity) || self.has_media {
            rows + self.dirty_rows@
        } else {
            rows
        }
    }

    /// Whether the batch moved rows by an amount that the emulator does not report.
    pub open spec fn retires_rows(self, addressing: RowAddressing) -> bool {
        self.alt_screen_changed || self.observer.may_break_addressing || addressing.saturated
            || self.history_size_after < self.history_size_before
    }
}

/// The rows that a synchronized update holds back after some batches.
pub open spec fn all_held_back(
    rows: Seq<usize>,
    batches: Seq<BatchReading>,
    capacity: u64,
) -> Seq<usize>
    decreases batches.len(),
{
    if batches.len() == 0 {
        rows
    } else {
        batches.last().held_back(all_held_back(rows, batches.drop_last(), capacity), capacity)
    }
}

/// A synchronized update loses no row: whatever its batches damaged is published when it ends,
/// and so is what was held back before.
pub proof fn law_held_back_rows_are_published(
    rows: Seq<usize>,
    batches: Seq<BatchReading>,
    capacity: u64,
    last: BatchReading,
    published: Seq<usize>,
    row: usize,
)
    requires
        is_sorted_set(published, all_held_back(rows, batches, capacity) + last.dirty_rows@),
    ensures
        published.contains(row) <==> (rows.contains(row) || last.dirty_rows@.contains(row)
            || exists|i: int|
            0 <= i < batches.len() && (#[trigger] batches[i]).dirty_rows@.contains(row)),
{
    lemma_held_back(rows, batches, capacity, row);
    let held = all_held_back(rows, batches, capacity);
    let all = held + last.dirty_rows@;
    if held.contains(row) {
        let k = choose|k: int| 0 <= k < held.len() && held[k] == row;
        assert(all[k] == row);
    }
    if last.dirty_rows@.contains(row) {
        let k = choose|k: int| 0 <= k < last.dirty_rows@.len() && last.dirty_rows@[k] == row;
        assert(all[held.len() + k] == row);
    }
    if all.contains(row) {
        let k = choose|k: int| 0 <= k < all.len() && all[k] == row;
        if k < held.len() {
            assert(held[k] == row);
        } else {
            assert(last.dirty_rows@[k - held.len()] == row);
        }
    }
    assert(published.contains(row) <==> all.contains(row));
}

proof fn lemma_held_back(rows: Seq<usize>, batches: Seq<BatchReading>, capacity: u64, row: usize)
    ensures
        all_held_back(rows, batches, capacity).contains(row) <==> (rows.contains(row) || exists|
            i: int,
        |
            0 <= i < batches.len() && (#[trigger] batches[i]).dirty_rows@.contains(row)),
    decreases batches.len(),
{
    if batches.len() > 0 {
        let before = batches.drop_last();
        let batch = batches.last();
        lemma_held_back(rows, before, capacity, row);
        let held = all_held_back(rows, before, capacity);
        let all = held + batch.dirty_rows@;
        assert forall|i: int| 0 <= i < before.len() implies #[trigger] before[i] == batches[i] by {}
        assert(all.contains(row) <==> held.contains(row) || batch.dirty_rows@.contains(row)) by {
            if held.contains(row) {
                let k = choose|k: int| 0 <= k < held.len() && held[k] == row;
                assert(all[k] == row);
            }
            if batch.dirty_rows@.contains(row) {
                let k = choose|k: int|
                    0 <= k < batch.dirty_rows@.len() && batch.dirty_rows@[k] == row;
                assert(all[held.len() + k] == row);
            }
            if all.contains(row) {
                let k = choose|k: int| 0 <= k < all.len() && all[k] == row;
                if k < held.len() {
                    assert(held[k] == row);
                } else {
                    assert(batch.dirty_rows@[k - held.len()] == row);
                }
            }
        }
        if exists|i: int|
            0 <= i < before.len() && (#[trigger] before[i]).dirty_rows@.contains(row) {
            let i = choose|i: int|
                0 <= i < before.len() && (#[trigger] before[i]).dirty_rows@.contains(row);
            assert(batches[i].dirty_rows@.contains(row));
        }
        if exists|i: int|
            0 <= i < batches.len() && (#[trigger] batches[i]).dirty_rows@.contains(row) {
            let i = choose|i: int|
                0 <= i < batches.len() && (#[trigger] batches[i]).dirty_rows@.contains(row);
            if i < before.len() {
                assert(before[i].dirty_rows@.contains(row));
            }
        }
        if batch.dirty_rows@.contains(row) {
            assert(batches[batches.len() - 1].dirty_rows@.contains(row));
        }
    }
}

/// Whether `out` holds the numbers of `rows`, ascending and each once.
pub open spec fn is_sorted_set(out: Seq<usize>, rows: Seq<usize>) -> bool {
    &&& forall|i: int, j: int| 0 <= i < j < out.len() ==> #[trigger] out[i] < #[trigger] out[j]
    &&& forall|r: usize| #[trigger] out.contains(r) <==> rows.contains(r)
}

/// Put one number among ascending ones, unless it is there.
fn place_row(out: &mut Vec<usize>, row: usize)
    requires
        forall|i: int, j: int|
            0 <= i < j < old(out)@.len() ==> #[trigger] old(out)@[i] < #[trigger] old(out)@[j],
    ensures
        forall|i: int, j: int|
            0 <= i < j < final(out)@.len() ==> #[trigger] final(out)@[i] < #[trigger] final(out)@[j],
        forall|r: usize| #[trigger]
            final(out)@.contains(r) <==> old(out)@.contains(r) || r == row,
{
    let mut at: usize = out.len();
    while at > 0 && out[at - 1] >= row
        invariant
            at <= out@.len(),
            *out == *old(out),
            forall|i: int, j: int|
                0 <= i < j < out@.len() ==> #[trigger] out@[i] < #[trigger] out@[j],
            forall|i: int| at <= i < out@.len() ==> #[trigger] out@[i] >= row,
        decreases at,
    {
        at -= 1;
    }
    let ghost before = out@;
    if at < out.len() && out[at] == row {
        assert forall|r: usize| #[trigger] out@.contains(r) <==> before.contains(r) || r == row by {
            assert(before[at as int] == row);
        }
        return ;
    }
    out.insert(at, row);
    proof {
        assert forall|r: usize| #[trigger] out@.contains(r) <==> before.contains(r) || r == row by {
            if before.contains(r) {
                let k = choose|k: int| 0 <= k < before.len() && before[k] == r;
                assert(out@[if k < at {
                    k
                } else {
                    k + 1
                }] == r);
            }
            if r == row {
                assert(out@[at as int] == row);
            }
            if out@.contains(r) && r != row {
                let k = choose|k: int| 0 <= k < out@.len() && out@[k] == r;
                assert(before[if k < at {
                    k
                } else {
                    k - 1
                }] == r);
            }
        }
        assert forall|i: int, j: int| 0 <= i < j < out@.len() implies #[trigger] out@[i]
            < #[trigger] out@[j] by {
            let oi = if i < at {
                i
            } else {
                i - 1
            };
            let oj = if j < at {
                j
            } else {
                j - 1
            };
            if i != at && j != at {
                assert(before[oi] < before[oj]);
            } else if i == at {
                assert(before[oj] >= row);
                if oj > at {
                    assert(before[at as int] < before[oj]);
                }
            } else {
                if oi < at - 1 {
                    assert(before[oi] < before[at - 1]);
                }
            }
        }
    }
}

/// Row numbers ascending, each once.
pub fn sorted_rows(rows: &Vec<usize>) -> (out: Vec<usize>)
    ensures
        is_sorted_set(out@, rows@),
{
    let mut out: Vec<usize> = Vec::new();
    let mut i: usize = 0;
    while i < rows.len()
        invariant
            i <= rows@.len(),
            forall|a: int, b: int|
                0 <= a < b < out@.len() ==> #[trigger] out@[a] < #[trigger] out@[b],
            forall|r: usize| #[trigger] out@.contains(r) <==> rows@.take(i as int).contains(r),
        decreases rows@.len() - i,
    {
        let ghost before = out@;
        place_row(&mut out, rows[i]);
        proof {
            let head = rows@.take(i as int);
            let more = rows@.take(i + 1);
            assert(more =~= head.push(rows@[i as int]));
            assert forall|r: usize| #[trigger] out@.contains(r) <==> more.contains(r) by {
                assert(out@.contains(r) <==> before.contains(r) || r == rows@[i as int]);
                assert(before.contains(r) <==> head.contains(r));
                if head.contains(r) {
                    let k = choose|k: int| 0 <= k < head.len() && head[k] == r;
                    assert(more[k] == r);
                }
                if r == rows@[i as int] {
                    assert(more[i as int] == r);
                }
                if more.contains(r) && r != rows@[i as int] {
                    let k = choose|k: int| 0 <= k < more.len() && more[k] == r;
                    assert(head[k] == r);
                }
            }
        }
        i += 1;
    }
    assert(rows@.take(i as int) =~= rows@);
    out
}

/// Publish what a synchronized update held back, once it has lasted too long.
pub fn force_flush_after_bsu_timeout(window: &mut SyncWindow) -> (request: Option<
    GenerationRequest,
>)
    ensures
        final(window).pending_notify == old(window).pending_notify,
        !final(window).pending_sync,
        request is Some <==> old(window).pending_sync,
        match request {
            Some(r) => {
                &&& is_sorted_set(r.dirty_rows@, old(window).pending_dirty_rows@)
                &&& r.requires_full_snapshot == old(window).pending_full_snapshot
                &&& r.force_broadcast
                &&& final(window).pending_dirty_rows@ == Seq::<usize>::empty()
                &&& !final(window).pending_full_snapshot
            },
            None => {
                &&& final(window).pending_dirty_rows@ == old(window).pending_dirty_rows@
                &&& final(window).pending_full_snapshot == old(window).pending_full_snapshot
            },
        },
{
    if !window.pending_sync {
        return None;
    }
    let dirty_rows = sorted_rows(&window.pending_dirty_rows);
    window.pending_dirty_rows = Vec::new();
    let requires_full_snapshot = window.pending_full_snapshot;
    window.pending_full_snapshot = false;
    window.pending_sync = false;
    Some(GenerationRequest { dirty_rows, requires_full_snapshot, force_broadcast: true })
}

/// Whether to send a postponed wakeup now, given whether its window has ended.
pub fn flush_pending_notify(window: &mut SyncWindow, admitted: bool) -> (send: bool)
    ensures
        send == (old(window).pending_notify && admitted),
        final(window).pending_notify == (old(window).pending_notify && !admitted),
        final(window).pending_sync == old(window).pending_sync,
        final(window).pending_dirty_rows@ == old(window).pending_dirty_rows@,
        final(window).pending_full_snapshot == old(window).pending_full_snapshot,
{
    if window.pending_notify && admitted {
        window.pending_notify = false;
        true
    } else {
        false
    }
}

/// Scalar state of a pane.
#[derive(Clone, Copy, Debug, PartialEq, Eq, Structural)]
pub struct PaneState {
    /// Advances with every grid-affecting change.
    pub generation: u64,
    /// Number of the last batch of raw output.
    pub output_sequence: u64,
    pub alive: bool,
    pub cols: u64,
    pub rows: u64,
    pub bracketed_paste_mode: bool,
    /// The pane fills the window.
    pub zoomed: bool,
    /// How many shell markers were seen.
    pub prompt_marker: u64,
    /// Absolute row id of viewport line 0, counted from pane start.
    pub viewport_top_absolute: u64,
    /// Generation of the row numbering. Movement of rows whose size is unknown retires the
    /// numbering by advancing this.
    pub row_addressing_epoch: u64,
    pub marker_sequence: u64,
    pub scrollback_capacity: u64,
    pub history_version: u64,
    pub media_sequence: u64,
    /// A hook waits for the child to exit.
    pub exit_hook_installed: bool,
}

/// The server's state of one pane.
pub struct Pane {
    pub id: String,
    pub cwd: String,
    pub title: String,
    pub command: Option<String>,
    pub session_id: Option<String>,
    pub state: PaneState,
    pub grid_diff_ring: GridDiffRing,
    /// Viewports by client. The pane's size is the min-fit across them.
    pub client_viewports: TextMap<PaneViewport>,
    /// Recorded shell markers, oldest first.
    pub shell_markers: VecDeque<ShellMarker>,
    pub pending_typed_events: PendingTypedEvents,
}

/// A counter that wraps.
pub open spec fn wrapped_next(n: u64) -> u64 {
    if n < u64::MAX {
        (n + 1) as u64
    } else {
        0
    }
}

/// A counter that stops at its largest value.
pub open spec fn capped_next(n: u64) -> u64 {
    if n < u64::MAX {
        (n + 1) as u64
    } else {
        u64::MAX
    }
}

/// A cursor line as a row offset; a line above the viewport counts as its top.
pub open spec fn line_offset(line: i32) -> int {
    if line >= 0 {
        line as int
    } else {
        0
    }
}

impl PaneState {
    /// The row numbering after it was retired: past everything addressable, under a new epoch.
    pub open spec fn retired(self, viewport_top: u64, history_size: usize) -> PaneState {
        PaneState {
            viewport_top_absolute: crate::row_addressing::u64_sum(
                viewport_top as int,
                history_size as int,
            ),
            row_addressing_epoch: wrapped_next(self.row_addressing_epoch),
            ..self
        }
    }

    /// The row numbering after a batch.
    pub open spec fn rows_committed(self, addressing: RowAddressing, batch: BatchReading) -> PaneState {
        if batch.retires_rows(addressing) {
            self.retired(addressing.viewport_top, batch.history_size_after)
        } else {
            PaneState { viewport_top_absolute: addressing.viewport_top, ..self }
        }
    }

    /// Where a marker's row can be addressed, given the extent of the grid.
    pub open spec fn position(
        self,
        marker: ShellMarker,
        history_size: int,
        screen_lines: int,
    ) -> ShellMarkerPosition {
        let top = self.viewport_top_absolute as int;
        let oldest = if top > history_size {
            top - history_size
        } else {
            0
        };
        let row = marker.absolute_row as int;
        if marker.epoch != self.row_addressing_epoch || row < oldest {
            ShellMarkerPosition::Unavailable
        } else if row < top {
            if row - oldest <= u32::MAX {
                ShellMarkerPosition::History { index: (row - oldest) as u32 }
            } else {
                ShellMarkerPosition::Unavailable
            }
        } else if row - top < screen_lines && row - top <= u32::MAX {
            ShellMarkerPosition::Viewport { line: (row - top) as u32 }
        } else {
            ShellMarkerPosition::Unavailable
        }
    }
}

/// Retired numbering resolves no marker recorded before, unless the epoch counter has gone all
/// the way round.
pub proof fn law_retired_rows_are_unavailable(
    before: PaneState,
    marker: ShellMarker,
    viewport_top: u64,
    retired_history: usize,
    history_size: int,
    screen_lines: int,
)
    requires
        marker.epoch == before.row_addressing_epoch,
    ensures
        before.retired(viewport_top, retired_history).position(marker, history_size, screen_lines)
            == ShellMarkerPosition::Unavailable,
{
}

/// A row that is still addressable keeps its place in scrollback order: rows that scroll by
/// move every recorded row up by the same distance.
pub proof fn law_scrolling_shifts_rows_by_the_distance(
    before: PaneState,
    marker: ShellMarker,
    scrolled: u64,
    history_size: int,
    screen_lines: int,
    line: u32,
)
    requires
        before.viewport_top_absolute + scrolled <= u64::MAX,
        0 <= history_size <= before.viewport_top_absolute,
        screen_lines <= u32::MAX,
        before.position(marker, history_size, screen_lines) == (ShellMarkerPosition::Viewport {
            line,
        }),
        history_size + scrolled <= u32::MAX,
    ensures
        ({
            let after = PaneState {
                viewport_top_absolute: (before.viewport_top_absolute + scrolled) as u64,
                ..before
            };
            after.position(marker, history_size + scrolled, screen_lines) == (if line >= scrolled {
                ShellMarkerPosition::Viewport { line: (line - scrolled) as u32 }
            } else {
                ShellMarkerPosition::History { index: (history_size + line) as u32 }
            })
        }),
{
}

/// What settling a batch does: the pane and the window before and after, and the generation that
/// is asked for.
pub open spec fn settled(
    before: Pane,
    after: Pane,
    held: SyncWindow,
    left: SyncWindow,
    batch: BatchReading,
    addressing: RowAddressing,
    request: Option<GenerationRequest>,
) -> bool {
    let capacity = before.state.scrollback_capacity;
    let stale = batch.history_changed(capacity);
    let noted = PaneState {
        bracketed_paste_mode: batch.bracketed_paste,
        history_version: if stale {
            wrapped_next(before.state.history_version)
        } else {
            before.state.history_version
        },
        output_sequence: capped_next(before.state.output_sequence),
        ..before.state
    };
    let changed = batch.grid_changed(capacity) || batch.has_media;
    let full = held.pending_full_snapshot || batch.render_state_changed || stale;
    let rows = held.pending_dirty_rows@ + batch.dirty_rows@;
    &&& after.same_but_state(&before)
    &&& after.state == noted.rows_committed(addressing, batch)
    &&& left.pending_notify == held.pending_notify
    &&& if batch.in_sync && !batch.sync_ended {
        &&& request is None
        &&& left.pending_sync == (held.pending_sync || changed)
        &&& left.pending_dirty_rows@ == batch.held_back(
            held.pending_dirty_rows@,
            capacity,
        )
        &&& left.pending_full_snapshot == (if changed {
            full
        } else {
            held.pending_full_snapshot
        })
    } else if changed || held.pending_sync {
        &&& request matches Some(r)
        &&& is_sorted_set(r.dirty_rows@, rows)
        &&& r.requires_full_snapshot == full
        &&& r.force_broadcast == batch.sync_ended
        &&& !left.pending_sync
        &&& left.pending_dirty_rows@ == Seq::<usize>::empty()
        &&& !left.pending_full_snapshot
    } else {
        &&& request is None
        &&& left.pending_sync == held.pending_sync
        &&& left.pending_dirty_rows@ == held.pending_dirty_rows@
        &&& left.pending_full_snapshot == held.pending_full_snapshot
    }
}

/// What publishing a requested generation does, given the rows of its diff: the pane and the
/// window before and after.
pub open spec fn emitted(
    before: Pane,
    after: Pane,
    held: SyncWindow,
    left: SyncWindow,
    request: GenerationRequest,
    rows: Seq<crate::grid_sync::RowView>,
    viewport_is_scrolled: bool,
    admitted: bool,
) -> bool {
    &&& after.state == (PaneState {
        generation: capped_next(before.state.generation),
        ..before.state
    })
    &&& after.ring_published(
        &before,
        rows,
        request.requires_full_snapshot || viewport_is_scrolled,
    )
    &&& after.same_but_state_and_ring(&before)
    &&& left.pending_notify == !admitted
    &&& left.pending_sync == held.pending_sync
    &&& left.pending_dirty_rows@ == held.pending_dirty_rows@
    &&& left.pending_full_snapshot == held.pending_full_snapshot
}

/// What queueing the completed media and actions of a batch does: the pane before and after.
pub open spec fn dispatched(
    before: Pane,
    after: Pane,
    scan_events: Seq<ScanEvent>,
    media: Seq<PaneMedia>,
    actions: Seq<PaneAction>,
    media_hook: bool,
    action_hook: bool,
) -> bool {
    &&& after.state == (PaneState {
        media_sequence: crate::typed_events::counter_after(
            scan_events,
            before.id@,
            before.state.media_sequence,
            crate::typed_events::media_views(media),
            crate::typed_events::action_views(actions),
        ),
        ..before.state
    })
    &&& exists|events: Seq<crate::typed_events::PendingTypedEvent>| #[trigger]
        crate::typed_events::typed_views(events) == crate::typed_events::stamped(
            scan_events,
            before.id@,
            before.state.media_sequence,
            crate::typed_events::media_views(media),
            crate::typed_events::action_views(actions),
        ) && after.pending_typed_events@ == (crate::typed_events::QueueModel {
            queue: before.pending_typed_events@.queue + crate::typed_events::retained(
                events,
                before.session_id is Some,
                media_hook,
                action_hook,
            ),
            ..before.pending_typed_events@
        })
    &&& after.id == before.id
    &&& after.cwd == before.cwd
    &&& after.title == before.title
    &&& after.command == before.command
    &&& after.session_id == before.session_id
    &&& after.grid_diff_ring == before.grid_diff_ring
    &&& after.client_viewports == before.client_viewports
    &&& after.shell_markers == before.shell_markers
}

/// What one event of the emulator does, given the rows of the whole screen: the pane before and
/// after, and what it asks for, in order.
pub open spec fn handled(
    before: Pane,
    after: Pane,
    event: EventView,
    screen: Seq<crate::grid_sync::RowView>,
    effects: Seq<EffectView>,
) -> bool {
    match event {
        EventView::Title(title) => {
            &&& effects == seq![EffectView::TitleChanged(title), EffectView::Dirty]
            &&& after.retitled(&before, title, screen)
        },
        EventView::ResetTitle => {
            &&& effects == seq![EffectView::TitleChanged(Seq::empty()), EffectView::Dirty]
            &&& after.retitled(&before, Seq::empty(), screen)
        },
        EventView::Bell => effects == seq![EffectView::Bell] && after == before,
        EventView::PtyWrite(text) => effects == seq![EffectView::WritePty(text)] && after
            == before,
        EventView::ClipboardStore(data) => effects == seq![EffectView::StoreClipboard(data)]
            && after == before,
        EventView::Exit | EventView::ChildExit => {
            &&& effects == (if before.state.exit_hook_installed {
                seq![EffectView::RunExitHook]
            } else {
                seq![]
            })
            &&& after.state == (PaneState {
                alive: false,
                exit_hook_installed: false,
                ..before.state
            })
            &&& after.same_but_state(&before)
        },
        EventView::ClipboardLoad | EventView::Other => effects == Seq::<EffectView>::empty()
            && after == before,
    }
}

/// What some events of the emulator do, one after the other.
pub open spec fn all_handled(
    before: Pane,
    after: Pane,
    events: Seq<EventView>,
    screen: Seq<crate::grid_sync::RowView>,
    effects: Seq<EffectView>,
) -> bool
    decreases events.len(),
{
    if events.len() == 0 {
        after == before && effects == Seq::<EffectView>::empty()
    } else {
        exists|between: Pane, asked: int|
            0 <= asked <= effects.len() && all_handled(
                before,
                between,
                events.drop_last(),
                screen,
                effects.take(asked),
            ) && #[trigger] handled(
                between,
                after,
                events.last(),
                screen,
                effects.skip(asked),
            )
    }
}

impl Pane {
    /// The ring, the viewports, the markers and the capacity are in order.
    pub open spec fn wf(&self) -> bool {
        &&& self.grid_diff_ring.wf()
        &&& self.client_viewports.wf()
        &&& self.shell_markers@.len() <= MAX_RECORDED_SHELL_MARKERS
        &&& self.state.scrollback_capacity <= MAX_SCROLLBACK_LINES
    }

    /// Identity, texts, viewports, markers and queued events are those of `other`.
    pub open spec fn same_but_state_and_ring(&self, other: &Pane) -> bool {
        &&& self.id == other.id
        &&& self.cwd == other.cwd
        &&& self.title == other.title
        &&& self.command == other.command
        &&& self.session_id == other.session_id
        &&& self.client_viewports == other.client_viewports
        &&& self.shell_markers == other.shell_markers
        &&& self.pending_typed_events == other.pending_typed_events
    }

    /// Everything but the scalar state is that of `other`.
    pub open spec fn same_but_state(&self, other: &Pane) -> bool {
        self.same_but_state_and_ring(other) && self.grid_diff_ring == other.grid_diff_ring
    }

    /// The ring took in one more generation.
    pub open spec fn ring_published(
        &self,
        before: &Pane,
        rows: Seq<crate::grid_sync::RowView>,
        full: bool,
    ) -> bool {
        &&& self.grid_diff_ring.wf()
        &&& self.grid_diff_ring.bound() == before.grid_diff_ring.bound()
        &&& self.grid_diff_ring@ == crate::grid_sync::newest(
            before.grid_diff_ring@.push(
                crate::grid_sync::EntryView {
                    generation: capped_next(before.state.generation),
                    rows,
                    requires_full_snapshot: full,
                },
            ),
            before.grid_diff_ring.bound(),
        )
    }

    /// A pane that was just opened.
    pub fn new(
        limits: &GridLimits,
        id: String,
        session_id: String,
        cwd: String,
        cols: u32,
        rows: u32,
        command: Option<&ShellCommand>,
        scrollback_lines: usize,
        history_version: u64,
    ) -> (opened: Result<Pane, PaneSizeError>)
        ensures
            opened is Ok <==> limits.admits(cols, rows),
            opened matches Err(e) ==> e == PaneSizeError::Grid,
            opened matches Ok(pane) ==> {
                &&& pane.wf()
                &&& pane.id@ == id@
                &&& pane.cwd@ == cwd@
                &&& pane.title@ == Seq::<char>::empty()
                &&& match command {
                    Some(c) => pane.command is Some && pane.command->0@ == command_line(
                        c.program@,
                        c.args@,
                    ),
                    None => pane.command is None,
                }
                &&& session_id@.len() == 0 ==> pane.session_id is None
                &&& session_id@.len() > 0 ==> pane.session_id is Some && pane.session_id->0@
                    == session_id@
                &&& pane.state == (PaneState {
                    generation: 0,
                    output_sequence: 0,
                    alive: true,
                    cols: cols as u64,
                    rows: rows as u64,
                    bracketed_paste_mode: false,
                    zoomed: false,
                    prompt_marker: 0,
                    viewport_top_absolute: 0,
                    row_addressing_epoch: 1,
                    marker_sequence: 0,
                    scrollback_capacity: crate::row_addressing::least(
                        scrollback_lines as int,
                        MAX_SCROLLBACK_LINES as int,
                    ) as u64,
                    history_version,
                    media_sequence: 0,
                    exit_hook_installed: false,
                })
                &&& pane.grid_diff_ring@ == Seq::<crate::grid_sync::EntryView>::empty()
                &&& pane.grid_diff_ring.bound() == DIFF_RING_ENTRIES
                &&& pane.client_viewports@ == Map::<Seq<char>, PaneViewport>::empty()
                &&& pane.client_viewports.entries@.len() == 0
                &&& pane.shell_markers@ == Seq::<ShellMarker>::empty()
                &&& pane.pending_typed_events@ == (crate::typed_events::QueueModel {
                    queue: Seq::empty(),
                    draining: false,
                    retry_requested: false,
                })
            },
    {
        let capacity: usize = if scrollback_lines < MAX_SCROLLBACK_LINES {
            scrollback_lines
        } else {
            MAX_SCROLLBACK_LINES
        };
        if checked_grid_dimensions(limits, cols, rows).is_err() {
            return Err(PaneSizeError::Grid);
        }
        let command = match command {
            Some(c) => Some(command_text(c)),
            None => None,
        };
        let session_id = if session_id.as_str().is_empty() {
            None
        } else {
            Some(session_id)
        };
        let client_viewports: TextMap<PaneViewport> = TextMap::new();
        assert(client_viewports.entries@.len() == 0) by {
            assert(client_viewports.keys().len() == 0);
        }
        Ok(
            Pane {
                id,
                cwd,
                title: String::new(),
                command,
                session_id,
                state: PaneState {
                    generation: 0,
                    output_sequence: 0,
                    alive: true,
                    cols: cols as u64,
                    rows: rows as u64,
                    bracketed_paste_mode: false,
                    zoomed: false,
                    prompt_marker: 0,
                    viewport_top_absolute: 0,
                    row_addressing_epoch: 1,
                    marker_sequence: 0,
                    scrollback_capacity: capacity as u64,
                    history_version,
                    media_sequence: 0,
                    exit_hook_installed: false,
                },
                grid_diff_ring: GridDiffRing::new(DIFF_RING_ENTRIES),
                client_viewports,
                shell_markers: VecDeque::new(),
                pending_typed_events: PendingTypedEvents::new(),
            },
        )
    }

    /// Insert the ring entry, then expose its generation.
    pub fn publish_generation(&mut self, diff: GridDiff, requires_full_snapshot: bool) -> (
    generation: u64)
        requires
            old(self).wf(),
        ensures
            final(self).wf(),
            generation == capped_next(old(self).state.generation),
            final(self).state == (PaneState { generation, ..old(self).state }),
            final(self).ring_published(old(self), diff@, requires_full_snapshot),
            final(self).same_but_state_and_ring(old(self)),
    {
        let generation = self.state.generation.saturating_add(1);
        if requires_full_snapshot {
            self.grid_diff_ring.push_requiring_full_snapshot(generation, diff);
        } else {
            self.grid_diff_ring.push(generation, diff);
        }
        self.state.generation = generation;
        generation
    }

    /// The current generation.
    pub fn get_generation(&self) -> (generation: u64)
        ensures
            generation == self.state.generation,
    {
        self.state.generation
    }

    /// Advance the number of raw output batches, stopping at the largest so that an old number
    /// never appears new again.
    pub fn advance_output_sequence(&mut self) -> (sequence: u64)
        ensures
            sequence == capped_next(old(self).state.output_sequence),
            final(self).state == (PaneState { output_sequence: sequence, ..old(self).state }),
            final(self).same_but_state(old(self)),
    {
        self.state.output_sequence = self.state.output_sequence.saturating_add(1);
        self.state.output_sequence
    }

    /// Retire every recorded row id. The markers stay, since their kind and exit status stay
    /// meaningful, but they no longer resolve to a row.
    pub fn retire_row_addressing(&mut self, viewport_top: u64, history_size: usize)
        ensures
            final(self).state == old(self).state.retired(viewport_top, history_size),
            final(self).same_but_state(old(self)),
    {
        self.state.viewport_top_absolute = viewport_top.saturating_add(history_size as u64);
        self.state.row_addressing_epoch = self.state.row_addressing_epoch.wrapping_add(1);
    }

    /// Publish a batch's row base, retiring the numbering when the batch moved rows by an
    /// amount that the emulator does not report.
    pub fn commit_row_addressing(&mut self, addressing: &RowAddressing, batch: &BatchReading)
        ensures
            final(self).state == old(self).state.rows_committed(*addressing, *batch),
            final(self).same_but_state(old(self)),
    {
        if batch.alt_screen_changed || batch.observer.may_break_addressing || addressing.saturated
            || batch.history_size_after < batch.history_size_before {
            self.retire_row_addressing(addressing.viewport_top, batch.history_size_after);
        } else {
            self.state.viewport_top_absolute = addressing.viewport_top;
        }
    }

    /// Take in what one parsed batch changed, and say which generation to publish, if any. Inside
    /// a synchronized update changes are held back until it ends.
    pub fn settle_batch(
        &mut self,
        window: &mut SyncWindow,
        batch: &BatchReading,
        addressing: &RowAddressing,
    ) -> (request: Option<GenerationRequest>)
        ensures
            settled(
                *old(self),
                *final(self),
                *old(window),
                *final(window),
                *batch,
                *addressing,
                request,
            ),
    {
        self.state.bracketed_paste_mode = batch.bracketed_paste;
        let capacity = self.state.scrollback_capacity;
        let history_changed = batch.history_size_before != batch.history_size_after || (capacity > 0
            && batch.history_size_after as u64 >= capacity && batch.cursor_row_unchanged
            && batch.observer.may_rotate) || (batch.history_size_after != 0
            && batch.observer.may_break_addressing);
        if history_changed {
            self.state.history_version = self.state.history_version.wrapping_add(1);
        }
        self.commit_row_addressing(addressing, batch);
        let grid_changed = batch.dirty_rows.len() > 0 || batch.render_state_changed
            || history_changed;
        let request = if batch.in_sync && !batch.sync_ended {
            if grid_changed || batch.has_media {
                window.pending_sync = true;
                append_rows(&mut window.pending_dirty_rows, &batch.dirty_rows);
                window.pending_full_snapshot = window.pending_full_snapshot
                    || batch.render_state_changed || history_changed;
            }
            None
        } else if grid_changed || batch.has_media || window.pending_sync {
            append_rows(&mut window.pending_dirty_rows, &batch.dirty_rows);
            let dirty_rows = sorted_rows(&window.pending_dirty_rows);
            window.pending_dirty_rows = Vec::new();
            let requires_full_snapshot = window.pending_full_snapshot || batch.render_state_changed
                || history_changed;
            window.pending_full_snapshot = false;
            window.pending_sync = false;
            Some(
                GenerationRequest {
                    dirty_rows,
                    requires_full_snapshot,
                    force_broadcast: batch.sync_ended,
                },
            )
        } else {
            None
        };
        self.advance_output_sequence();
        request
    }

    /// Publish a requested generation, given the diff of its rows. A scrolled viewport always
    /// needs a full snapshot. `admitted` says whether clients may be woken now; if not, the
    /// wakeup is postponed.
    pub fn emit_generation(
        &mut self,
        window: &mut SyncWindow,
        request: &GenerationRequest,
        diff: GridDiff,
        viewport_is_scrolled: bool,
        admitted: bool,
    ) -> (wake: bool)
        requires
            old(self).wf(),
        ensures
            final(self).wf(),
            wake == admitted,
            emitted(
                *old(self),
                *final(self),
                *old(window),
                *final(window),
                *request,
                diff@,
                viewport_is_scrolled,
                admitted,
            ),
    {
        self.publish_generation(diff, request.requires_full_snapshot || viewport_is_scrolled);
        window.pending_notify = !admitted;
        admitted
    }

    /// Record a shell marker where the cursor stands, dropping the oldest beyond the limit.
    pub fn record_shell_marker(
        &mut self,
        kind: ShellMarkerKind,
        exit_code: Option<i32>,
        viewport_top: u64,
        epoch: u64,
        cursor_line: i32,
        cursor_column: usize,
    )
        requires
            old(self).wf(),
        ensures
            final(self).wf(),
            final(self).shell_markers@ == crate::grid_sync::newest(
                old(self).shell_markers@.push(
                    ShellMarker {
                        sequence: capped_next(old(self).state.marker_sequence),
                        kind,
                        absolute_row: crate::row_addressing::u64_sum(
                            viewport_top as int,
                            line_offset(cursor_line),
                        ),
                        column: crate::marker_walk::column_number(cursor_column as int),
                        exit_code,
                        epoch,
                    },
                ),
                MAX_RECORDED_SHELL_MARKERS as nat,
            ),
            final(self).state == (PaneState {
                marker_sequence: wrapped_next(old(self).state.marker_sequence),
                prompt_marker: wrapped_next(old(self).state.prompt_marker),
                ..old(self).state
            }),
            final(self).same_but_markers(old(self)),
    {
        let line: u64 = if cursor_line >= 0 {
            cursor_line as u64
        } else {
            0
        };
        let marker = ShellMarker {
            sequence: self.state.marker_sequence.saturating_add(1),
            kind,
            absolute_row: viewport_top.saturating_add(line),
            column: clamp_column(cursor_column),
            exit_code,
            epoch,
        };
        self.state.marker_sequence = self.state.marker_sequence.wrapping_add(1);
        let ghost before = self.shell_markers@;
        if self.shell_markers.len() >= MAX_RECORDED_SHELL_MARKERS {
            self.shell_markers.pop_front();
        }
        self.shell_markers.push_back(marker);
        assert(self.shell_markers@ =~= crate::grid_sync::newest(
            before.push(marker),
            MAX_RECORDED_SHELL_MARKERS as nat,
        ));
        self.state.prompt_marker = self.state.prompt_marker.wrapping_add(1);
    }

    /// Everything but the scalar state and the recorded markers is that of `other`.
    pub open spec fn same_but_markers(&self, other: &Pane) -> bool {
        &&& self.id == other.id
        &&& self.cwd == other.cwd
        &&& self.title == other.title
        &&& self.command == other.command
        &&& self.session_id == other.session_id
        &&& self.client_viewports == other.client_viewports
        &&& self.pending_typed_events == other.pending_typed_events
        &&& self.grid_diff_ring == other.grid_diff_ring
    }

    /// Cross a stop of a walk: a shell marker is recorded at the row where the cursor stands,
    /// under the current epoch.
    fn cross_boundary(
        &mut self,
        stop: Boundary,
        viewport_top: u64,
        cursor_line: i32,
        cursor_column: usize,
    )
        requires
            old(self).wf(),
        ensures
            final(self).wf(),
            final(self).same_but_markers(old(self)),
            (final(self).shell_markers@, final(self).state) == marker_recorded(
                (old(self).shell_markers@, old(self).state),
                stop,
                viewport_top,
                cursor_line,
                cursor_column,
            ),
    {
        match stop {
            Boundary::Marker { kind, exit_code } => {
                let epoch = self.state.row_addressing_epoch;
                self.record_shell_marker(
                    kind,
                    exit_code,
                    viewport_top,
                    epoch,
                    cursor_line,
                    cursor_column,
                );
            },
            _ => {},
        }
    }

    /// Where a walk through a batch starts.
    pub open spec fn walk_start(&self, steps: Seq<EmulatorStep>) -> WalkPoint {
        WalkPoint {
            addressing: RowAddressing {
                viewport_top: self.state.viewport_top_absolute,
                history_size: crate::emulator::history_at(steps),
                capacity: self.state.scrollback_capacity as usize,
                consumed: 0,
                primary_screen: !crate::emulator::alternate_at(steps),
                headroom_granted: false,
                saturated: false,
            },
            steps,
        }
    }

    /// Feed a batch to the emulator, stopping at every shell marker and every media event: a
    /// marker is recorded, and the cursor for an image is taken, when exactly the bytes before
    /// it have been fed. The answer is the row bookkeeping of the batch, and the cells of its
    /// completed images by their slot in the media list.
    pub fn advance_recording_markers(
        &mut self,
        emulator: &mut Emulator,
        bytes: &[u8],
        events: &Vec<OscEvent>,
        media_events: &Vec<ScanEvent>,
        pending: &mut Option<PendingMediaCursor>,
    ) -> (walked: (RowAddressing, Vec<(usize, i32, u32)>))
        requires
            old(self).wf(),
            crate::emulator::usable(crate::emulator::steps(*old(emulator))),
            crate::emulator::takes(crate::emulator::steps(*old(emulator)), bytes@),
        ensures
            final(self).wf(),
            final(self).same_but_markers(old(self)),
            crate::emulator::usable(crate::emulator::steps(*final(emulator))),
            crate::emulator::fed_bytes(*final(emulator)) == crate::emulator::fed_bytes(
                *old(emulator),
            ) + bytes@,
            walked.0.consumed == bytes@.len(),
            ({
                let start = old(self).walk_start(crate::emulator::steps(*old(emulator)));
                let stops = crate::marker_walk::walk_stops(events@, media_events@);
                let end = crate::marker_walk::walk_end(start, bytes@, stops);
                &&& walked.0 == end.addressing
                &&& crate::emulator::steps(*final(emulator)) == end.steps
                &&& (*final(pending), walked.1@) == crate::marker_walk::cursors_taken(
                    start,
                    bytes@,
                    stops,
                    *old(pending),
                    stops.len() as int,
                )
                &&& (final(self).shell_markers@, final(self).state) == markers_recorded(
                    (old(self).shell_markers@, old(self).state),
                    start,
                    bytes@,
                    stops,
                    stops.len() as int,
                )
            }),
    {
        let mut addressing = RowAddressing::start(
            self.state.viewport_top_absolute,
            emulator.history_size(),
            self.state.scrollback_capacity as usize,
            !emulator.shows_alternate(),
        );
        let stops = merge_boundaries(events, media_events);
        let ghost start = self.walk_start(crate::emulator::steps(*emulator));
        let ghost ledger = (self.shell_markers@, self.state);
        proof {
            let merged = crate::marker_walk::osc_stops(events@) + crate::marker_walk::scan_stops(
                media_events@,
            );
            crate::marker_walk::law_stable_order_is_unique(
                stops@,
                crate::marker_walk::walk_stops(events@, media_events@),
                merged,
            );
        }
        let mut cells: Vec<(usize, i32, u32)> = Vec::new();
        let mut next: usize = 0;
        while next < stops.len()
            invariant
                next <= stops@.len(),
                self.wf(),
                self.same_but_markers(old(self)),
                crate::marker_walk::by_offset(stops@),
                start.addressing.consumed == 0,
                addressing.consumed <= bytes@.len(),
                next < stops@.len() ==> addressing.consumed <= stops@[next as int].0,
                addressing.capacity <= MAX_SCROLLBACK_LINES,
                crate::emulator::usable(crate::emulator::steps(*emulator)),
                crate::emulator::takes(crate::emulator::steps(*emulator), bytes@),
                (WalkPoint { addressing, steps: crate::emulator::steps(*emulator) })
                    == crate::marker_walk::point_at(start, bytes@, stops@, next as int),
                (*pending, cells@) == crate::marker_walk::cursors_taken(
                    start,
                    bytes@,
                    stops@,
                    *old(pending),
                    next as int,
                ),
                (self.shell_markers@, self.state) == markers_recorded(
                    ledger,
                    start,
                    bytes@,
                    stops@,
                    next as int,
                ),
            decreases stops@.len() - next,
        {
            let (offset, stop) = stops[next];
            addressing.advance_to(emulator, bytes, offset);
            let (cursor_line, cursor_column) = emulator.cursor();
            take_cursor(stop, pending, &mut cells, cursor_line, cursor_column);
            self.cross_boundary(stop, addressing.viewport_top, cursor_line, cursor_column);
            assert(next + 1 < stops@.len() ==> stops@[next as int].0 <= stops@[next + 1].0);
            next += 1;
        }
        addressing.advance_to(emulator, bytes, bytes.len());
        addressing.finish(emulator);
        proof {
            crate::marker_walk::law_walk_feeds_the_batch(start, bytes@, stops@);
        }
        (addressing, cells)
    }
}

/// The recorded markers and the scalar state after a stop, where the cursor is read.
pub open spec fn marker_recorded(
    before: (Seq<ShellMarker>, PaneState),
    stop: Boundary,
    viewport_top: u64,
    cursor_line: i32,
    cursor_column: usize,
) -> (Seq<ShellMarker>, PaneState) {
    match stop {
        Boundary::Marker { kind, exit_code } => (
            crate::grid_sync::newest(
                before.0.push(
                    ShellMarker {
                        sequence: capped_next(before.1.marker_sequence),
                        kind,
                        absolute_row: crate::row_addressing::u64_sum(
                            viewport_top as int,
                            line_offset(cursor_line),
                        ),
                        column: crate::marker_walk::column_number(cursor_column as int),
                        exit_code,
                        epoch: before.1.row_addressing_epoch,
                    },
                ),
                MAX_RECORDED_SHELL_MARKERS as nat,
            ),
            PaneState {
                marker_sequence: wrapped_next(before.1.marker_sequence),
                prompt_marker: wrapped_next(before.1.prompt_marker),
                ..before.1
            },
        ),
        _ => before,
    }
}

/// The recorded markers and the scalar state after the first `n` stops of a walk.
pub open spec fn markers_recorded(
    before: (Seq<ShellMarker>, PaneState),
    start: WalkPoint,
    bytes: Seq<u8>,
    stops: Seq<(usize, Boundary)>,
    n: int,
) -> (Seq<ShellMarker>, PaneState)
    decreases n,
{
    if n <= 0 {
        before
    } else {
        let here = crate::marker_walk::point_at(start, bytes, stops, n);
        let cursor = crate::emulator::cursor_at(here.steps);
        marker_recorded(
            markers_recorded(before, start, bytes, stops, n - 1),
            stops[n - 1].1,
            here.addressing.viewport_top,
            cursor.0,
            cursor.1,
        )
    }
}

proof fn lemma_markers_stay_bounded(
    before: (Seq<ShellMarker>, PaneState),
    start: WalkPoint,
    bytes: Seq<u8>,
    stops: Seq<(usize, Boundary)>,
    n: int,
)
    requires
        before.0.len() <= MAX_RECORDED_SHELL_MARKERS,
    ensures
        markers_recorded(before, start, bytes, stops, n).0.len() <= MAX_RECORDED_SHELL_MARKERS,
    decreases n,
{
    if n > 0 {
        lemma_markers_stay_bounded(before, start, bytes, stops, n - 1);
    }
}

/// A walk records one marker for every shell marker it stops at, in order, at the row and the
/// column where the cursor stood when the bytes before it had been fed: it is the newest one
/// then.
pub proof fn law_shell_event_records_one_marker(
    before: (Seq<ShellMarker>, PaneState),
    start: WalkPoint,
    bytes: Seq<u8>,
    stops: Seq<(usize, Boundary)>,
    n: int,
)
    requires
        before.0.len() <= MAX_RECORDED_SHELL_MARKERS,
        0 < n <= stops.len(),
    ensures
        ({
            let earlier = markers_recorded(before, start, bytes, stops, n - 1);
            let now = markers_recorded(before, start, bytes, stops, n);
            let here = crate::marker_walk::point_at(start, bytes, stops, n);
            let cursor = crate::emulator::cursor_at(here.steps);
            match stops[n - 1].1 {
                Boundary::Marker { kind, exit_code } => {
                    &&& now.0.len() > 0
                    &&& now.0.last().kind == kind
                    &&& now.0.last().exit_code == exit_code
                    &&& now.0.last().absolute_row == crate::row_addressing::u64_sum(
                        here.addressing.viewport_top as int,
                        line_offset(cursor.0),
                    )
                    &&& now.0.last().column == crate::marker_walk::column_number(cursor.1 as int)
                    &&& now.0.drop_last() == earlier.0 || now.0.drop_last() == earlier.0.drop_first()
                },
                _ => now == earlier,
            }
        }),
{
    let earlier = markers_recorded(before, start, bytes, stops, n - 1);
    let now = markers_recorded(before, start, bytes, stops, n);
    lemma_markers_stay_bounded(before, start, bytes, stops, n - 1);
    if stops[n - 1].1 is Marker {
        if earlier.0.len() < MAX_RECORDED_SHELL_MARKERS {
            assert(now.0.drop_last() =~= earlier.0);
        } else {
            assert(now.0.drop_last() =~= earlier.0.drop_first());
        }
    }
}

proof fn lemma_one_more_handled(
    before: Pane,
    between: Pane,
    after: Pane,
    events: Seq<EventView>,
    screen: Seq<crate::grid_sync::RowView>,
    effects: Seq<EffectView>,
    asked: int,
)
    requires
        events.len() > 0,
        0 <= asked <= effects.len(),
        all_handled(before, between, events.drop_last(), screen, effects.take(asked)),
        handled(between, after, events.last(), screen, effects.skip(asked)),
    ensures
        all_handled(before, after, events, screen, effects),
{
}

/// Recording markers changes only their counters in the scalar state.
proof fn lemma_markers_keep_the_rest(
    before: (Seq<ShellMarker>, PaneState),
    start: WalkPoint,
    bytes: Seq<u8>,
    stops: Seq<(usize, Boundary)>,
    n: int,
)
    ensures
        ({
            let now = markers_recorded(before, start, bytes, stops, n).1;
            now == (PaneState {
                marker_sequence: now.marker_sequence,
                prompt_marker: now.prompt_marker,
                ..before.1
            })
        }),
    decreases n,
{
    if n > 0 {
        lemma_markers_keep_the_rest(before, start, bytes, stops, n - 1);
    }
}

/// What the scanner made of a batch of raw output: the bytes for the grid, and the media and
/// actions that were taken out of them, with their events in arrival order.
pub struct ScanOutput {
    pub grid_bytes: Vec<u8>,
    pub media: Vec<PaneMedia>,
    pub actions: Vec<PaneAction>,
    pub events: Vec<ScanEvent>,
}

/// What else is known of a batch.
#[derive(Clone, Copy, Debug, PartialEq, Eq, Structural)]
pub struct BatchSituation {
    /// A synchronized update is open at its end.
    pub in_sync: bool,
    /// A synchronized update ended within it.
    pub sync_ended: bool,
    /// A hook takes media.
    pub media_hook: bool,
    /// A hook takes actions.
    pub action_hook: bool,
}

impl BatchSituation {
    /// What is known of a batch of bytes for the grid, given a tracker of the bytes before it.
    pub open spec fn of(
        tracker: SyncTracker,
        bytes: Seq<u8>,
        media_hook: bool,
        action_hook: bool,
    ) -> BatchSituation {
        BatchSituation {
            in_sync: tracker.after(bytes).open,
            sync_ended: tracker.ends_in(bytes),
            media_hook,
            action_hook,
        }
    }
}

/// Follow the synchronized updates in a batch, and say what is known of it then.
pub fn batch_situation(
    tracker: &mut SyncTracker,
    bytes: &[u8],
    media_hook: bool,
    action_hook: bool,
) -> (situation: BatchSituation)
    requires
        old(tracker).wf(),
    ensures
        final(tracker).wf(),
        *final(tracker) == old(tracker).after(bytes@),
        situation == BatchSituation::of(*old(tracker), bytes@, media_hook, action_hook),
{
    let sync_ended = tracker.parse(bytes);
    BatchSituation { in_sync: tracker.is_in_sync(), sync_ended, media_hook, action_hook }
}

/// What a batch leaves to be told and done.
#[derive(Debug)]
pub struct BatchOutcome {
    /// The number of the batch.
    pub output_sequence: u64,
    /// Clients are to be woken for a new generation.
    pub wake: bool,
    /// What the emulator asks for, in order.
    pub effects: Vec<PaneEffect>,
    /// The directories that the program went to, in order.
    pub directories: Vec<String>,
}

/// The directory that a report names, if it names one.
pub open spec fn announced(event: OscEvent) -> Option<Seq<char>> {
    match event {
        OscEvent::Cwd(uri) => {
            let path = crate::cwd::reported_path(uri@);
            if path.len() > 0 {
                Some(crate::cwd::utf8_lossy(crate::cwd::percent_decoded(encode_utf8(path))))
            } else {
                None
            }
        },
        OscEvent::ShellMarker { .. } => None,
    }
}

/// The directory after some reports, and those that were new, in order.
pub open spec fn followed(cwd: Seq<char>, events: Seq<OscEvent>) -> (Seq<char>, Seq<Seq<char>>)
    decreases events.len(),
{
    if events.len() == 0 {
        (cwd, Seq::empty())
    } else {
        let before = followed(cwd, events.drop_last());
        match announced(events.last()) {
            Some(directory) => if directory != before.0 {
                (directory, before.1.push(directory))
            } else {
                before
            },
            None => before,
        }
    }
}

/// The pane followed some reports to its directory, and is otherwise as it was.
pub open spec fn moved(
    before: Pane,
    after: Pane,
    events: Seq<OscEvent>,
    directories: Seq<Seq<char>>,
) -> bool {
    &&& (after.cwd@, directories) == followed(before.cwd@, events)
    &&& after.id == before.id
    &&& after.title == before.title
    &&& after.command == before.command
    &&& after.session_id == before.session_id
    &&& after.state == before.state
    &&& after.grid_diff_ring == before.grid_diff_ring
    &&& after.client_viewports == before.client_viewports
    &&& after.shell_markers == before.shell_markers
    &&& after.pending_typed_events == before.pending_typed_events
}

/// What shows of an emulator beside its cells.
pub open spec fn render_state(steps: Seq<EmulatorStep>) -> (
    (i32, usize),
    (crate::emulator::CursorLook, bool),
    usize,
    u32,
) {
    (
        crate::emulator::cursor_at(steps),
        crate::emulator::cursor_look_at(steps),
        crate::emulator::display_offset_at(steps),
        crate::emulator::modes_at(steps),
    )
}

impl BatchReading {
    /// Whether this is what is read around a batch that takes an emulator from some steps to
    /// others.
    pub open spec fn reads(
        self,
        before: Seq<EmulatorStep>,
        after: Seq<EmulatorStep>,
        observer: HistoryMutationObserver,
        scan_events: Seq<ScanEvent>,
        situation: BatchSituation,
    ) -> bool {
        &&& self.in_sync == situation.in_sync
        &&& self.sync_ended == situation.sync_ended
        &&& self.dirty_rows@ == crate::emulator::dirty_at(after)
        &&& self.render_state_changed == (render_state(before) != render_state(after))
        &&& self.history_size_before == crate::emulator::history_at(before)
        &&& self.history_size_after == crate::emulator::history_at(after)
        &&& self.cursor_row_unchanged == (crate::emulator::cursor_at(before).0
            == crate::emulator::cursor_at(after).0)
        &&& self.alt_screen_changed == (crate::emulator::alternate_at(before)
            != crate::emulator::alternate_at(after))
        &&& self.bracketed_paste == (crate::emulator::modes_at(after)
            & crate::emulator::BRACKETED_PASTE != 0)
        &&& self.observer == observer
        &&& self.has_media == exists|i: int|
            0 <= i < scan_events.len() && (#[trigger] scan_events[i]) is Media
    }
}

/// How a batch goes through a pane, stage by stage.
pub struct BatchTrace {
    /// What the emulator had gone through before the batch.
    pub steps: Seq<EmulatorStep>,
    /// What it has gone through once the batch is settled.
    pub settled_steps: Seq<EmulatorStep>,
    /// The pane after the walk.
    pub walked: Pane,
    pub addressing: RowAddressing,
    /// The cells of completed images.
    pub cells: Seq<(usize, i32, u32)>,
    pub batch: BatchReading,
    /// The pane and the window after the batch is settled.
    pub settled: Pane,
    pub held: SyncWindow,
    pub request: Option<GenerationRequest>,
    /// The pane after the generation is published.
    pub emitted: Pane,
    /// The pane after media and actions are queued.
    pub dispatched: Pane,
    /// The pane after the reports of the emulator are taken in.
    pub handled: Pane,
}

impl BatchTrace {
    /// Whether a batch takes a pane, its reading state and the scanner's output from one state to
    /// another by these stages.
    pub open spec fn explains(
        self,
        before: Pane,
        after: Pane,
        state_before: ReadLoopState,
        state_after: ReadLoopState,
        scanned_before: ScanOutput,
        scanned_after: ScanOutput,
        situation: BatchSituation,
        outcome: BatchOutcome,
    ) -> bool {
        let bytes = scanned_before.grid_bytes@;
        let scan_events = scanned_before.events@;
        let events = state_after.osc_events@;
        let observer = crate::emulator::after_operations(
            HistoryMutationObserver { may_rotate: false, may_break_addressing: false },
            crate::emulator::operations_in(self.steps, bytes),
        );
        let watched = self.steps.push(EmulatorStep::Watch(bytes));
        let start = before.walk_start(watched);
        let stops = crate::marker_walk::walk_stops(events, scan_events);
        let end = crate::marker_walk::walk_end(start, bytes, stops);
        &&& crate::osc::event_views(events) == state_before.osc_scanner@.reports(bytes)
        &&& state_after.osc_scanner@ == state_before.osc_scanner@.after(bytes)
        &&& self.walked.same_but_markers(&before)
        &&& (self.walked.shell_markers@, self.walked.state) == markers_recorded(
            (before.shell_markers@, before.state),
            start,
            bytes,
            stops,
            stops.len() as int,
        )
        &&& self.addressing == end.addressing
        &&& (state_after.pending_media_cursor, self.cells) == crate::marker_walk::cursors_taken(
            start,
            bytes,
            stops,
            state_before.pending_media_cursor,
            stops.len() as int,
        )
        &&& crate::typed_events::media_views(scanned_after.media@) == crate::typed_events::placed(
            crate::typed_events::media_views(scanned_before.media@),
            self.cells,
        )
        &&& self.batch.reads(watched, end.steps, observer, scan_events, situation)
        &&& self.settled_steps == end.steps.push(EmulatorStep::ReadDamage).push(
            EmulatorStep::ResetDamage,
        )
        &&& settled(
            self.walked,
            self.settled,
            state_before.window,
            self.held,
            self.batch,
            self.addressing,
            self.request,
        )
        &&& match self.request {
            Some(request) => emitted(
                self.settled,
                self.emitted,
                self.held,
                state_after.window,
                request,
                crate::emulator::rows_shown(self.settled_steps, request.dirty_rows@),
                crate::emulator::display_offset_at(self.settled_steps) != 0,
                outcome.wake,
            ),
            None => self.emitted == self.settled && state_after.window == self.held
                && !outcome.wake,
        }
        &&& dispatched(
            self.emitted,
            self.dispatched,
            scan_events,
            scanned_after.media@,
            scanned_before.actions@,
            situation.media_hook,
            situation.action_hook,
        )
        &&& all_handled(
            self.dispatched,
            self.handled,
            crate::emulator::events_at(self.settled_steps),
            crate::emulator::screen_shown(self.settled_steps.push(EmulatorStep::TakeEvents)),
            effect_views(outcome.effects@),
        )
        &&& moved(self.handled, after, events, crate::layout::text_views(outcome.directories@))
        &&& outcome.output_sequence == self.settled.state.output_sequence
    }
}

/// Rows behind rows.
fn append_rows(rows: &mut Vec<usize>, more: &Vec<usize>)
    ensures
        final(rows)@ == old(rows)@ + more@,
{
    let mut i: usize = 0;
    assert(rows@ =~= old(rows)@ + more@.take(0));
    while i < more.len()
        invariant
            i <= more@.len(),
            rows@ == old(rows)@ + more@.take(i as int),
        decreases more@.len() - i,
    {
        rows.push(more[i]);
        assert(rows@ =~= old(rows)@ + more@.take(i + 1));
        i += 1;
    }
    assert(more@.take(i as int) =~= more@);
}

/// Events of the emulator that reach beyond the grid.
#[derive(Debug)]
pub enum EmulatorEvent {
    Title(String),
    ResetTitle,
    Bell,
    PtyWrite(String),
    ClipboardStore(String),
    ClipboardLoad,
    Exit,
    ChildExit,
    Other,
}

/// What an emulator event asks for.
#[derive(Debug)]
pub enum PaneEffect {
    /// Tell clients the new title.
    TitleChanged(String),
    /// Tell clients to fetch the grid.
    Dirty,
    /// Tell clients about the bell.
    Bell,
    /// Write to the terminal device.
    WritePty(String),
    /// Hand content to the clipboard hook.
    StoreClipboard(String),
    /// Run the exit hook.
    RunExitHook,
}

/// What a [`PaneEffect`] says.
pub enum EffectView {
    TitleChanged(Seq<char>),
    Dirty,
    Bell,
    WritePty(Seq<char>),
    StoreClipboard(Seq<char>),
    RunExitHook,
}

impl View for PaneEffect {
    type V = EffectView;

    open spec fn view(&self) -> EffectView {
        match *self {
            PaneEffect::TitleChanged(title) => EffectView::TitleChanged(title@),
            PaneEffect::Dirty => EffectView::Dirty,
            PaneEffect::Bell => EffectView::Bell,
            PaneEffect::WritePty(text) => EffectView::WritePty(text@),
            PaneEffect::StoreClipboard(data) => EffectView::StoreClipboard(data@),
            PaneEffect::RunExitHook => EffectView::RunExitHook,
        }
    }
}

/// What a list of effects says.
pub open spec fn effect_views(effects: Seq<PaneEffect>) -> Seq<EffectView> {
    effects.map_values(|e: PaneEffect| e@)
}

impl Pane {
    /// Whether a new scrollback capacity is to be applied, and which: capped, and only if it
    /// differs.
    pub fn scrollback_capacity_change(&self, capacity: usize) -> (change: Option<usize>)
        ensures
            ({
                let capped = crate::row_addressing::least(
                    capacity as int,
                    MAX_SCROLLBACK_LINES as int,
                );
                change == (if self.state.scrollback_capacity == capped {
                    None
                } else {
                    Some(capped as usize)
                })
            }),
    {
        let capped: usize = if capacity < MAX_SCROLLBACK_LINES {
            capacity
        } else {
            MAX_SCROLLBACK_LINES
        };
        if self.state.scrollback_capacity == capped as u64 {
            None
        } else {
            Some(capped)
        }
    }

    /// Keep another number of rows of history, capped, unless it is the number that is kept.
    /// Shrinking evicts rows without reporting how many, so recorded rows do not survive it. The
    /// answer says whether anything changed.
    pub fn set_scrollback_capacity(&mut self, emulator: &mut Emulator, capacity: usize) -> (changed:
        bool)
        requires
            old(self).wf(),
            crate::emulator::usable(crate::emulator::steps(*old(emulator))),
        ensures
            final(self).wf(),
            crate::emulator::usable(crate::emulator::steps(*final(emulator))),
            ({
                let capped = crate::row_addressing::least(
                    capacity as int,
                    MAX_SCROLLBACK_LINES as int,
                );
                let now = crate::emulator::steps(*final(emulator));
                &&& changed == (old(self).state.scrollback_capacity != capped)
                &&& !changed ==> *final(self) == *old(self) && *final(emulator) == *old(emulator)
                &&& changed ==> {
                    &&& now == crate::emulator::steps(*old(emulator)).push(
                        EmulatorStep::Configure { history: capped as usize },
                    )
                    &&& final(self).state == (PaneState {
                        scrollback_capacity: capped as u64,
                        history_version: wrapped_next(old(self).state.history_version),
                        generation: capped_next(old(self).state.generation),
                        ..old(self).state.retired(
                            old(self).state.viewport_top_absolute,
                            crate::emulator::history_at(now),
                        )
                    })
                    &&& final(self).ring_published(
                        old(self),
                        crate::emulator::screen_shown(now),
                        true,
                    )
                    &&& final(self).same_but_state_and_ring(old(self))
                }
            }),
    {
        match self.scrollback_capacity_change(capacity) {
            None => false,
            Some(capped) => {
                proof {
                    crate::emulator::lemma_step(
                        crate::emulator::steps(*emulator),
                        EmulatorStep::Configure { history: capped },
                    );
                }
                emulator.configure(capped);
                let top = self.state.viewport_top_absolute;
                self.retire_row_addressing(top, emulator.history_size());
                let diff = emulator.whole_diff();
                self.state.scrollback_capacity = capped as u64;
                self.state.history_version = self.state.history_version.wrapping_add(1);
                self.publish_generation(diff, true);
                true
            },
        }
    }

    /// Publish a generation that metadata asked for.
    pub fn bump_generation(&mut self, diff: GridDiff)
        requires
            old(self).wf(),
        ensures
            final(self).wf(),
            final(self).state == (PaneState {
                generation: capped_next(old(self).state.generation),
                ..old(self).state
            }),
            final(self).ring_published(old(self), diff@, false),
            final(self).same_but_state_and_ring(old(self)),
    {
        self.publish_generation(diff, false);
    }

    /// The text to write for a paste: framed where the program asked for it.
    pub fn paste(&self, text: &str) -> (written: String)
        ensures
            written@ == crate::clipboard::pasted(text@, self.state.bracketed_paste_mode),
    {
        wrap_bracketed_paste(text, self.state.bracketed_paste_mode)
    }

    /// What a client at `since_generation` needs, with the number of the last output batch that
    /// the grid includes.
    pub fn fetch_grid_update<F: FnOnce() -> FullGridSnapshot>(
        &self,
        since_generation: u64,
        take_snapshot: F,
    ) -> (fetched: (GridUpdate, u64))
        requires
            call_requires(take_snapshot, ()),
        ensures
            fetched.1 == self.state.output_sequence,
            ({
                let current = self.state.generation;
                let entries = self.grid_diff_ring@;
                let full = (entries.len() > 0 && since_generation < entries[0].generation)
                    || crate::grid_sync::needs_snapshot(entries, since_generation);
                &&& since_generation >= current ==> fetched.0 == GridUpdate::NoChange(current)
                &&& since_generation < current && full ==> (
                fetched.0 matches GridUpdate::FullSnapshot { to_generation, snapshot }
                    && to_generation == current && call_ensures(take_snapshot, (), snapshot))
                &&& since_generation < current && !full ==> (
                fetched.0 matches GridUpdate::Diff { from_generation, to_generation, diff }
                    && from_generation == since_generation && to_generation == current && diff@
                    == crate::grid_sync::merged_since(entries, since_generation))
            }),
    {
        let update = self.grid_diff_ring.fetch_update(
            since_generation,
            self.state.generation,
            take_snapshot,
        );
        (update, self.state.output_sequence)
    }

    /// The size to apply, if the min-fit differs from the current size. Without any client the
    /// pane keeps its size.
    fn size_to_apply(&self) -> (size: Option<PaneViewport>)
        ensures
            size is Some ==> is_min_fit(self.client_viewports.entries@, size->0) && !(
            self.state.cols as u32 == size->0.cols && self.state.rows as u32 == size->0.rows),
            size is None ==> self.client_viewports.entries@.len() == 0 || is_min_fit(
                self.client_viewports.entries@,
                PaneViewport { cols: self.state.cols as u32, rows: self.state.rows as u32 },
            ),
    {
        match min_fit(&self.client_viewports) {
            None => None,
            Some(fit) => if self.get_cols() == fit.cols && self.get_rows() == fit.rows {
                None
            } else {
                Some(fit)
            },
        }
    }

    /// Record a client's viewport, and say which size to apply, if any. A size that the protocol
    /// cannot carry is refused before anything is recorded.
    pub fn set_client_viewport(
        &mut self,
        limits: &GridLimits,
        client_id: String,
        cols: u32,
        rows: u32,
    ) -> (size: Result<Option<PaneViewport>, PaneSizeError>)
        requires
            old(self).wf(),
        ensures
            final(self).wf(),
            final(self).state == old(self).state,
            final(self).same_but_viewports(old(self)),
            size is Ok <==> limits.admits(cols, rows),
            size is Err ==> size->Err_0 == PaneSizeError::Grid && *final(self) == *old(self),
            size is Ok ==> {
                &&& final(self).client_viewports@ == old(self).client_viewports@.insert(
                    client_id@,
                    PaneViewport { cols, rows },
                )
                &&& final(self).client_viewports.entries@.len()
                    == old(self).client_viewports.entries@.len() + (
                if old(self).client_viewports@.dom().contains(client_id@) {
                    0int
                } else {
                    1
                })
                &&& final(self).fits(size->Ok_0)
            },
    {
        if checked_grid_dimensions(limits, cols, rows).is_err() {
            return Err(PaneSizeError::Grid);
        }
        let ghost before = self.client_viewports.keys();
        self.client_viewports.insert(client_id, PaneViewport { cols, rows });
        assert(self.client_viewports.entries@.len() == self.client_viewports.keys().len());
        assert(old(self).client_viewports.entries@.len() == before.len());
        Ok(self.size_to_apply())
    }

    /// Whether `size` is what has to be applied for the pane to have its min-fit size.
    pub open spec fn fits(&self, size: Option<PaneViewport>) -> bool {
        match size {
            Some(fit) => is_min_fit(self.client_viewports.entries@, fit) && !(self.state.cols as u32
                == fit.cols && self.state.rows as u32 == fit.rows),
            None => self.client_viewports.entries@.len() == 0 || is_min_fit(
                self.client_viewports.entries@,
                PaneViewport { cols: self.state.cols as u32, rows: self.state.rows as u32 },
            ),
        }
    }

    /// Everything but the scalar state and the viewports is that of `other`.
    pub open spec fn same_but_viewports(&self, other: &Pane) -> bool {
        &&& self.id == other.id
        &&& self.cwd == other.cwd
        &&& self.title == other.title
        &&& self.command == other.command
        &&& self.session_id == other.session_id
        &&& self.shell_markers == other.shell_markers
        &&& self.pending_typed_events == other.pending_typed_events
        &&& self.grid_diff_ring == other.grid_diff_ring
    }

    /// Drop a detached client's viewport, and say which size to apply, if any: removing the
    /// smallest client lets the pane grow back. An unknown client changes nothing.
    pub fn remove_client_viewport(&mut self, client_id: &str) -> (size: Option<PaneViewport>)
        requires
            old(self).wf(),
        ensures
            final(self).wf(),
            final(self).state == old(self).state,
            final(self).same_but_viewports(old(self)),
            final(self).client_viewports@ == old(self).client_viewports@.remove(client_id@),
            old(self).client_viewports@.dom().contains(client_id@) ==> final(self).fits(size)
                && final(self).client_viewports.entries@.len()
                == old(self).client_viewports.entries@.len() - 1,
            !old(self).client_viewports@.dom().contains(client_id@) ==> size is None
                && final(self).client_viewports.entries@.len()
                == old(self).client_viewports.entries@.len(),
    {
        let ghost before = self.client_viewports;
        match self.client_viewports.remove(client_id) {
            None => {
                assert(self.client_viewports.entries@.len() == self.client_viewports.keys().len());
                assert(before.entries@.len() == before.keys().len());
                None
            },
            Some(_) => {
                proof {
                    crate::text_map::lemma_slot(before.entries@, client_id@);
                    assert(self.client_viewports.entries@.len()
                        == self.client_viewports.keys().len());
                    assert(before.entries@.len() == before.keys().len());
                }
                self.size_to_apply()
            },
        }
    }

    /// How many clients constrain the pane.
    pub fn client_viewport_count(&self) -> (n: usize)
        ensures
            n == self.client_viewports.entries@.len(),
    {
        self.client_viewports.entries.len()
    }

    /// The current min-fit, or nothing when no client has reported a viewport.
    pub fn min_fit_viewport(&self) -> (fit: Option<PaneViewport>)
        ensures
            fit is None <==> self.client_viewports.entries@.len() == 0,
            fit matches Some(f) ==> is_min_fit(self.client_viewports.entries@, f),
    {
        min_fit(&self.client_viewports)
    }

    /// The size of the terminal device for a grid, rows first, or why it is refused.
    pub fn check_resize(limits: &GridLimits, cols: u32, rows: u32) -> (size: Result<
        (u16, u16),
        PaneSizeError,
    >)
        ensures
            size == (if !limits.admits(cols, rows) {
                Err::<(u16, u16), PaneSizeError>(PaneSizeError::Grid)
            } else if rows > u16::MAX {
                Err(PaneSizeError::PtyRows)
            } else if cols > u16::MAX {
                Err(PaneSizeError::PtyCols)
            } else {
                Ok((rows as u16, cols as u16))
            }),
    {
        if checked_grid_dimensions(limits, cols, rows).is_err() {
            return Err(PaneSizeError::Grid);
        }
        if rows > u16::MAX as u32 {
            return Err(PaneSizeError::PtyRows);
        }
        if cols > u16::MAX as u32 {
            return Err(PaneSizeError::PtyCols);
        }
        Ok((rows as u16, cols as u16))
    }

    /// Give the grid another size. Reflow moves recorded rows by an amount that the emulator does
    /// not report, so they do not survive it.
    pub fn resize(&mut self, emulator: &mut Emulator, cols: u32, rows: u32)
        requires
            old(self).wf(),
            crate::emulator::usable(crate::emulator::steps(*old(emulator))),
            crate::emulator::size_fits(cols as usize, rows as usize),
            crate::emulator::has_room(cols as usize, crate::emulator::fed_bytes(*old(emulator))),
        ensures
            final(self).wf(),
            crate::emulator::usable(crate::emulator::steps(*final(emulator))),
            ({
                let now = crate::emulator::steps(*final(emulator));
                &&& now == crate::emulator::steps(*old(emulator)).push(
                    EmulatorStep::Resize { columns: cols as usize, lines: rows as usize },
                )
                &&& final(self).state == (PaneState {
                    cols: cols as u64,
                    rows: rows as u64,
                    history_version: wrapped_next(old(self).state.history_version),
                    generation: capped_next(old(self).state.generation),
                    ..old(self).state.retired(
                        old(self).state.viewport_top_absolute,
                        crate::emulator::history_at(now),
                    )
                })
                &&& final(self).ring_published(
                    old(self),
                    crate::emulator::screen_shown(now),
                    true,
                )
            }),
            final(self).same_but_state_and_ring(old(self)),
    {
        proof {
            crate::emulator::lemma_step(
                crate::emulator::steps(*emulator),
                EmulatorStep::Resize { columns: cols as usize, lines: rows as usize },
            );
        }
        emulator.resize(cols as usize, rows as usize);
        let top = self.state.viewport_top_absolute;
        self.retire_row_addressing(top, emulator.history_size());
        let diff = emulator.whole_diff();
        self.state.cols = cols as u64;
        self.state.rows = rows as u64;
        self.state.history_version = self.state.history_version.wrapping_add(1);
        self.publish_generation(diff, true);
    }

    /// Columns of the grid.
    pub fn get_cols(&self) -> (cols: u32)
        ensures
            cols == self.state.cols as u32,
    {
        self.state.cols as u32
    }

    /// Rows of the grid.
    pub fn get_rows(&self) -> (rows: u32)
        ensures
            rows == self.state.rows as u32,
    {
        self.state.rows as u32
    }

    /// Whether the child runs.
    pub fn is_alive(&self) -> (alive: bool)
        ensures
            alive == self.state.alive,
    {
        self.state.alive
    }

    /// Note whether the child runs.
    pub fn set_alive(&mut self, alive: bool)
        ensures
            final(self).state == (PaneState { alive, ..old(self).state }),
            final(self).same_but_state(old(self)),
    {
        self.state.alive = alive;
    }

    /// Attach the pane to a session.
    pub fn set_session_id(&mut self, session_id: String)
        ensures
            final(self).session_id is Some,
            final(self).session_id->0@ == session_id@,
            final(self).state == old(self).state,
            final(self).grid_diff_ring == old(self).grid_diff_ring,
            final(self).id == old(self).id,
            final(self).cwd == old(self).cwd,
            final(self).title == old(self).title,
            final(self).command == old(self).command,
            final(self).client_viewports == old(self).client_viewports,
            final(self).shell_markers == old(self).shell_markers,
            final(self).pending_typed_events == old(self).pending_typed_events,
    {
        self.session_id = Some(session_id);
    }

    /// The session the pane belongs to.
    pub fn get_session_id(&self) -> (session_id: Option<String>)
        ensures
            session_id is Some <==> self.session_id is Some,
            session_id matches Some(s) ==> s@ == self.session_id->0@,
    {
        match &self.session_id {
            Some(id) => Some(id.clone()),
            None => None,
        }
    }

    /// Install the hook that runs once when the child exits. A child that is already gone runs
    /// it now: `true` means run it.
    pub fn set_exit_hook(&mut self) -> (run: bool)
        ensures
            run == !old(self).state.alive,
            final(self).state == old(self).state.hook_installed(),
            final(self).same_but_state(old(self)),
    {
        self.state.exit_hook_installed = true;
        if !self.state.alive {
            self.fire_exit_hook()
        } else {
            false
        }
    }

    /// Take the exit hook: `true` means run it, and only the first call after an installation
    /// says so.
    pub fn fire_exit_hook(&mut self) -> (run: bool)
        ensures
            run == old(self).state.exit_hook_installed,
            final(self).state == old(self).state.hook_taken(),
            final(self).same_but_state(old(self)),
    {
        let run = self.state.exit_hook_installed;
        self.state.exit_hook_installed = false;
        run
    }

    /// Everything but the title, the scalar state and the ring is that of `other`.
    pub open spec fn same_but_title(&self, other: &Pane) -> bool {
        &&& self.id == other.id
        &&& self.cwd == other.cwd
        &&& self.command == other.command
        &&& self.session_id == other.session_id
        &&& self.client_viewports == other.client_viewports
        &&& self.shell_markers == other.shell_markers
        &&& self.pending_typed_events == other.pending_typed_events
    }

    /// Change the title and publish a generation.
    pub fn set_title(&mut self, title: String, diff: GridDiff)
        requires
            old(self).wf(),
        ensures
            final(self).wf(),
            final(self).title@ == title@,
            final(self).state == (PaneState {
                generation: capped_next(old(self).state.generation),
                ..old(self).state
            }),
            final(self).ring_published(old(self), diff@, false),
            final(self).same_but_title(old(self)),
    {
        self.title = title;
        self.publish_generation(diff, false);
    }

    /// The title.
    pub fn get_title(&self) -> (title: String)
        ensures
            title@ == self.title@,
    {
        self.title.clone()
    }

    /// Pane facts read together.
    pub fn metadata_snapshot(&self) -> (snapshot: PaneMetadataSnapshot)
        ensures
            snapshot.title@ == self.title@,
            snapshot.generation == self.state.generation,
            snapshot.cols == self.state.cols as u32,
            snapshot.rows == self.state.rows as u32,
            snapshot.is_alive == self.state.alive,
            snapshot.zoomed == self.state.zoomed,
    {
        PaneMetadataSnapshot {
            title: self.title.clone(),
            generation: self.state.generation,
            cols: self.state.cols as u32,
            rows: self.state.rows as u32,
            is_alive: self.state.alive,
            zoomed: self.state.zoomed,
        }
    }

    /// Whether the program asked for framed pastes.
    pub fn is_bracketed_paste_active(&self) -> (active: bool)
        ensures
            active == self.state.bracketed_paste_mode,
    {
        self.state.bracketed_paste_mode
    }

    /// Note whether the program asked for framed pastes.
    pub fn set_bracketed_paste_mode(&mut self, active: bool)
        ensures
            final(self).state == (PaneState { bracketed_paste_mode: active, ..old(self).state }),
            final(self).same_but_state(old(self)),
    {
        self.state.bracketed_paste_mode = active;
    }

    /// Answer a request for rows of history, or say why it is refused. Nothing is read for a
    /// refused one.
    pub fn fetch_scrollback_checked(
        &self,
        limits: &GridLimits,
        emulator: &Emulator,
        from_line: u32,
        direction: u32,
        count: u32,
    ) -> (answer: Result<(Vec<RowChange>, u32, u64), ScrollbackError>)
        ensures
            match answer {
                Ok((lines, total, version)) => {
                    let steps = crate::emulator::steps(*emulator);
                    let size = crate::emulator::readable(steps);
                    let (first, last) = crate::emulator::window(
                        size,
                        from_line as int,
                        direction,
                        count as int,
                    );
                    &&& direction <= 1
                    &&& count * (self.state.cols as u32) <= limits.max_cells
                    &&& crate::grid_sync::row_views(lines@) == crate::emulator::history_shown(
                        steps,
                        first,
                        last,
                    )
                    &&& total == size
                    &&& version == self.state.history_version
                },
                Err(ScrollbackError::InvalidDirection) => direction > 1,
                Err(ScrollbackError::CountTooLarge) => direction <= 1 && count * (
                self.state.cols as u32) > limits.max_cells,
            },
    {
        match check_scrollback_request(limits, self.get_cols(), direction, count) {
            Ok(_) => {
                let (lines, total) = emulator.scrollback_window(from_line, direction, count);
                Ok((lines, total, self.state.history_version))
            },
            Err(error) => Err(error),
        }
    }

    /// Answer a request for rows of history; a refused one is answered by no rows.
    pub fn fetch_scrollback(
        &self,
        limits: &GridLimits,
        emulator: &Emulator,
        from_line: u32,
        direction: u32,
        count: u32,
    ) -> (answer: (Vec<RowChange>, u32, u64))
        ensures
            answer.2 == self.state.history_version,
            ({
                let steps = crate::emulator::steps(*emulator);
                let size = crate::emulator::readable(steps);
                let (first, last) = crate::emulator::window(
                    size,
                    from_line as int,
                    direction,
                    count as int,
                );
                if direction <= 1 && count * (self.state.cols as u32) <= limits.max_cells {
                    &&& crate::grid_sync::row_views(answer.0@) == crate::emulator::history_shown(
                        steps,
                        first,
                        last,
                    )
                    &&& answer.1 == size
                } else {
                    answer.0@.len() == 0 && answer.1 == 0
                }
            }),
    {
        match self.fetch_scrollback_checked(limits, emulator, from_line, direction, count) {
            Ok(answer) => answer,
            Err(_) => (Vec::new(), 0, self.state.history_version),
        }
    }

    /// Up to `max_results` rows of history that match a regular expression, with their numbers, in
    /// search order: from a line towards the oldest row for direction 0, else towards the newest.
    /// A pattern that does not compile matches nothing.
    pub fn search_scrollback(
        &self,
        emulator: &Emulator,
        regex: &str,
        from_line: u32,
        direction: u32,
        max_results: u32,
    ) -> (found: (Vec<(u32, RowChange)>, u64))
        ensures
            found.1 == self.state.history_version,
            ({
                let steps = crate::emulator::steps(*emulator);
                let size = crate::emulator::readable(steps);
                let rows = crate::emulator::history_shown(steps, 0, size);
                crate::grid_sync::numbered_views(found.0@) == (if crate::pattern::regex_is_valid(
                    regex@,
                ) {
                    crate::grid_sync::at_most(
                        crate::grid_sync::matching_rows(
                            rows,
                            regex@,
                            crate::grid_sync::search_order(
                                size as nat,
                                from_line as nat,
                                direction,
                            ),
                        ),
                        max_results as nat,
                    )
                } else {
                    Seq::empty()
                })
            }),
    {
        let rows = emulator.whole_history();
        proof {
            crate::emulator::lemma_history_len(
                crate::emulator::steps(*emulator),
                0,
                crate::emulator::readable(crate::emulator::steps(*emulator)),
            );
        }
        let capacity = rows.len();
        let buffer = ScrollbackBuffer { rows, capacity };
        (buffer.search(regex, from_line, direction, max_results), self.state.history_version)
    }

    /// Version of the scrollback.
    pub fn get_scrollback_version(&self) -> (version: u64)
        ensures
            version == self.state.history_version,
    {
        self.state.history_version
    }

    /// Zoom or unzoom the pane and publish a generation, unless nothing changes.
    pub fn set_zoomed(&mut self, zoomed: bool, diff: GridDiff) -> (changed: bool)
        requires
            old(self).wf(),
        ensures
            final(self).wf(),
            changed == (old(self).state.zoomed != zoomed),
            !changed ==> *final(self) == *old(self),
            changed ==> final(self).state == (PaneState {
                zoomed,
                generation: capped_next(old(self).state.generation),
                ..old(self).state
            }) && final(self).ring_published(old(self), diff@, false)
                && final(self).same_but_state_and_ring(old(self)),
    {
        if self.state.zoomed == zoomed {
            return false;
        }
        self.state.zoomed = zoomed;
        self.publish_generation(diff, false);
        true
    }

    /// Whether the pane fills the window.
    pub fn is_zoomed(&self) -> (zoomed: bool)
        ensures
            zoomed == self.state.zoomed,
    {
        self.state.zoomed
    }

    /// The working directory as last reported.
    pub fn get_cwd(&self) -> (cwd: String)
        ensures
            cwd@ == self.cwd@,
    {
        self.cwd.clone()
    }

    /// How many shell markers were seen, in 32 bits.
    pub fn get_prompt_marker(&self) -> (n: u32)
        ensures
            n == self.state.prompt_marker as u32,
    {
        self.state.prompt_marker as u32
    }

    /// Recorded markers, oldest first.
    pub fn shell_markers(&self) -> (markers: Vec<ShellMarker>)
        ensures
            markers@ == self.shell_markers@,
    {
        let mut markers: Vec<ShellMarker> = Vec::new();
        let mut i: usize = 0;
        while i < self.shell_markers.len()
            invariant
                i <= self.shell_markers@.len(),
                markers@ == self.shell_markers@.take(i as int),
            decreases self.shell_markers@.len() - i,
        {
            markers.push(self.shell_markers[i]);
            assert(self.shell_markers@.take(i + 1) =~= self.shell_markers@.take(i as int).push(
                self.shell_markers@[i as int],
            ));
            i += 1;
        }
        assert(self.shell_markers@.take(i as int) =~= self.shell_markers@);
        markers
    }

    /// The epoch of the row numbering. A marker recorded under another epoch resolves to no
    /// row.
    pub fn row_addressing_epoch(&self) -> (epoch: u64)
        ensures
            epoch == self.state.row_addressing_epoch,
    {
        self.state.row_addressing_epoch
    }

    /// Resolve a recorded marker to a row addressable right now, given the extent of the grid.
    pub fn resolve_shell_marker(
        &self,
        marker: &ShellMarker,
        history_size: usize,
        screen_lines: usize,
    ) -> (position: ShellMarkerPosition)
        ensures
            position == self.state.position(*marker, history_size as int, screen_lines as int),
    {
        if marker.epoch != self.state.row_addressing_epoch {
            return ShellMarkerPosition::Unavailable;
        }
        let viewport_top = self.state.viewport_top_absolute;
        let oldest_row = viewport_top.saturating_sub(history_size as u64);
        if marker.absolute_row < oldest_row {
            return ShellMarkerPosition::Unavailable;
        }
        if marker.absolute_row < viewport_top {
            let index = marker.absolute_row - oldest_row;
            if index <= u32::MAX as u64 {
                return ShellMarkerPosition::History { index: index as u32 };
            }
            return ShellMarkerPosition::Unavailable;
        }
        let line = marker.absolute_row - viewport_top;
        if line >= screen_lines as u64 || line > u32::MAX as u64 {
            return ShellMarkerPosition::Unavailable;
        }
        ShellMarkerPosition::Viewport { line: line as u32 }
    }

    /// Resolve one recorded marker.
    pub fn locate_shell_marker(
        &self,
        marker: &ShellMarker,
        history_size: usize,
        screen_lines: usize,
    ) -> (position: ShellMarkerPosition)
        ensures
            position == self.state.position(*marker, history_size as int, screen_lines as int),
    {
        self.resolve_shell_marker(marker, history_size, screen_lines)
    }

    /// Every recorded marker with where it resolves right now.
    pub fn shell_marker_positions(&self, history_size: usize, screen_lines: usize) -> (positions:
        Vec<(ShellMarker, ShellMarkerPosition)>)
        ensures
            positions@ == self.shell_markers@.map_values(
                |m: ShellMarker|
                    (m, self.state.position(m, history_size as int, screen_lines as int)),
            ),
    {
        let mut positions: Vec<(ShellMarker, ShellMarkerPosition)> = Vec::new();
        let mut i: usize = 0;
        while i < self.shell_markers.len()
            invariant
                i <= self.shell_markers@.len(),
                positions@.len() == i,
                forall|j: int|
                    0 <= j < i ==> #[trigger] positions@[j] == (
                        self.shell_markers@[j],
                        self.state.position(
                            self.shell_markers@[j],
                            history_size as int,
                            screen_lines as int,
                        ),
                    ),
            decreases self.shell_markers@.len() - i,
        {
            let marker = self.shell_markers[i];
            positions.push((marker, self.resolve_shell_marker(&marker, history_size, screen_lines)));
            i += 1;
        }
        assert(positions@ =~= self.shell_markers@.map_values(
            |m: ShellMarker| (m, self.state.position(m, history_size as int, screen_lines as int)),
        ));
        positions
    }

    /// Take in a reported working directory. `true` means it changed and clients are told.
    pub fn handle_osc7_cwd(&mut self, uri: &str) -> (changed: bool)
        ensures
            ({
                let path = crate::cwd::reported_path(uri@);
                let directory = crate::cwd::utf8_lossy(
                    crate::cwd::percent_decoded(encode_utf8(path)),
                );
                &&& changed == (path.len() > 0 && directory != old(self).cwd@)
                &&& changed ==> final(self).cwd@ == directory
                &&& changed && valid_utf8(crate::cwd::percent_decoded(encode_utf8(path)))
                    ==> final(self).cwd@ == decode_utf8(
                    crate::cwd::percent_decoded(encode_utf8(path)),
                )
                &&& !changed ==> *final(self) == *old(self)
            }),
            final(self).id == old(self).id,
            final(self).title == old(self).title,
            final(self).command == old(self).command,
            final(self).session_id == old(self).session_id,
            final(self).state == old(self).state,
            final(self).grid_diff_ring == old(self).grid_diff_ring,
            final(self).client_viewports == old(self).client_viewports,
            final(self).shell_markers == old(self).shell_markers,
            final(self).pending_typed_events == old(self).pending_typed_events,
    {
        let path = directory_of(uri);
        if path.as_str().is_empty() {
            return false;
        }
        let directory = percent_decode(path.as_str());
        if same_text(directory.as_str(), self.cwd.as_str()) {
            return false;
        }
        self.cwd = directory;
        true
    }

    /// Queue the completed media and actions of a batch, stamped in cross-type arrival order.
    pub fn dispatch_media_events(
        &mut self,
        scan_events: &Vec<ScanEvent>,
        media: &Vec<PaneMedia>,
        actions: &Vec<PaneAction>,
        media_hook: bool,
        action_hook: bool,
    )
        ensures
            dispatched(
                *old(self),
                *final(self),
                scan_events@,
                media@,
                actions@,
                media_hook,
                action_hook,
            ),
    {
        let mut sequence = self.state.media_sequence;
        let events = crate::typed_events::stamp_events(
            &self.id,
            &mut sequence,
            scan_events,
            media,
            actions,
        );
        self.state.media_sequence = sequence;
        let has_session = self.session_id.is_some();
        let ghost queued = events@;
        self.pending_typed_events.enqueue(events, has_session, media_hook, action_hook);
        assert(crate::typed_events::typed_views(queued) == crate::typed_events::stamped(
            scan_events@,
            old(self).id@,
            old(self).state.media_sequence,
            crate::typed_events::media_views(media@),
            crate::typed_events::action_views(actions@),
        ));
    }

    /// Take in what the emulator reported, and say what it asks for, in order.
    fn handle_pending_events(&mut self, emulator: &mut Emulator) -> (effects: Vec<PaneEffect>)
        requires
            old(self).wf(),
            crate::emulator::usable(crate::emulator::steps(*old(emulator))),
        ensures
            final(self).wf(),
            crate::emulator::usable(crate::emulator::steps(*final(emulator))),
            crate::emulator::steps(*final(emulator)) == crate::emulator::steps(*old(emulator)).push(
                EmulatorStep::TakeEvents,
            ),
            all_handled(
                *old(self),
                *final(self),
                crate::emulator::events_at(crate::emulator::steps(*old(emulator))),
                crate::emulator::screen_shown(crate::emulator::steps(*final(emulator))),
                effect_views(effects@),
            ),
    {
        proof {
            crate::emulator::lemma_step(
                crate::emulator::steps(*emulator),
                EmulatorStep::TakeEvents,
            );
        }
        let mut events = emulator.take_events();
        let ghost views = crate::emulator::event_views(events@);
        let ghost reported = events@;
        let ghost screen = crate::emulator::screen_shown(crate::emulator::steps(*emulator));
        let mut effects: Vec<PaneEffect> = Vec::new();
        let ghost mut done: int = 0;
        assert(views.take(0) =~= Seq::<EventView>::empty());
        assert(effect_views(effects@) =~= Seq::<EffectView>::empty());
        while events.len() > 0
            invariant
                self.wf(),
                crate::emulator::usable(crate::emulator::steps(*emulator)),
                screen == crate::emulator::screen_shown(crate::emulator::steps(*emulator)),
                views == crate::emulator::event_views(reported),
                0 <= done <= reported.len(),
                events@ == reported.skip(done),
                all_handled(
                    *old(self),
                    *self,
                    views.take(done),
                    screen,
                    effect_views(effects@),
                ),
            decreases events@.len(),
        {
            let ghost between = *self;
            let ghost earlier = effects@;
            let event = events.remove(0);
            let diff = emulator.whole_diff();
            let mut asked = self.handle_event(event, diff);
            let ghost more = asked@;
            effects.append(&mut asked);
            proof {
                let all = effect_views(effects@);
                let count = earlier.len() as int;
                assert(views.take(done + 1).drop_last() =~= views.take(done));
                assert(views.take(done + 1).last() == event@);
                assert(all.take(count) =~= effect_views(earlier));
                assert(all.skip(count) =~= effect_views(more));
                lemma_one_more_handled(
                    *old(self),
                    between,
                    *self,
                    views.take(done + 1),
                    screen,
                    all,
                    count,
                );
                assert(events@ =~= reported.skip(done + 1));
                done = done + 1;
            }
        }
        assert(views.take(done) =~= views);
        effects
    }

    /// Follow the directories that a batch announced. The answer is those that are new, in order.
    fn follow_directories(&mut self, events: &Vec<OscEvent>) -> (directories: Vec<String>)
        ensures
            moved(*old(self), *final(self), events@, crate::layout::text_views(directories@)),
            old(self).wf() ==> final(self).wf(),
    {
        let mut directories: Vec<String> = Vec::new();
        let mut i: usize = 0;
        assert(events@.take(0) =~= Seq::<OscEvent>::empty());
        assert(crate::layout::text_views(directories@) =~= Seq::<Seq<char>>::empty());
        while i < events.len()
            invariant
                i <= events@.len(),
                moved(
                    *old(self),
                    *self,
                    events@.take(i as int),
                    crate::layout::text_views(directories@),
                ),
                old(self).wf() ==> self.wf(),
            decreases events@.len() - i,
        {
            assert(events@.take(i + 1).drop_last() =~= events@.take(i as int));
            assert(events@.take(i + 1).last() == events@[i as int]);
            match &events[i] {
                OscEvent::Cwd(uri) => {
                    if self.handle_osc7_cwd(uri.as_str()) {
                        let ghost before = directories@;
                        let directory = self.get_cwd();
                        directories.push(directory);
                        assert(crate::layout::text_views(directories@)
                            =~= crate::layout::text_views(before).push(directory@));
                    }
                },
                OscEvent::ShellMarker { .. } => {},
            }
            i += 1;
        }
        assert(events@.take(i as int) =~= events@);
        directories
    }

    /// Take one batch of output in. The grid's share of its bytes goes through the emulator, its
    /// markers and images are placed, and what changed is settled, published and queued. Clients
    /// may be woken for a generation if `may_wake` says so; it is told whether to insist. The
    /// answer is what is left to be told and done, and the media of the batch have their cells.
    pub fn process_pty_bytes<F: FnOnce(bool) -> bool>(
        &mut self,
        emulator: &mut Emulator,
        tracker: &mut SyncTracker,
        state: &mut ReadLoopState,
        scanned: &mut ScanOutput,
        media_hook: bool,
        action_hook: bool,
        may_wake: F,
    ) -> (outcome: BatchOutcome)
        requires
            old(self).wf(),
            old(tracker).wf(),
            old(state).osc_scanner@.wf(),
            crate::emulator::usable(crate::emulator::steps(*old(emulator))),
            crate::emulator::takes(
                crate::emulator::steps(*old(emulator)),
                old(scanned).grid_bytes@,
            ),
            forall|insist: bool| call_requires(may_wake, (insist,)),
        ensures
            final(self).wf(),
            final(tracker).wf(),
            *final(tracker) == old(tracker).after(old(scanned).grid_bytes@),
            final(state).osc_scanner@.wf(),
            crate::emulator::usable(crate::emulator::steps(*final(emulator))),
            crate::emulator::fed_bytes(*final(emulator)) == crate::emulator::fed_bytes(
                *old(emulator),
            ) + old(scanned).grid_bytes@,
            final(scanned).grid_bytes == old(scanned).grid_bytes,
            final(scanned).actions == old(scanned).actions,
            final(scanned).events == old(scanned).events,
            outcome.output_sequence == capped_next(old(self).state.output_sequence),
            exists|trace: BatchTrace| #[trigger]
                trace.explains(
                    *old(self),
                    *final(self),
                    *old(state),
                    *final(state),
                    *old(scanned),
                    *final(scanned),
                    BatchSituation::of(
                        *old(tracker),
                        old(scanned).grid_bytes@,
                        media_hook,
                        action_hook,
                    ),
                    outcome,
                ) && crate::emulator::steps(*final(emulator)) == trace.settled_steps.push(
                    EmulatorStep::TakeEvents,
                ) && trace.steps == crate::emulator::steps(*old(emulator)) && (
                trace.request matches Some(request) ==> call_ensures(
                    may_wake,
                    (request.force_broadcast,),
                    outcome.wake,
                )),
    {
        let ghost begun = crate::emulator::steps(*emulator);
        let bytes = scanned.grid_bytes.as_slice();
        let situation = batch_situation(tracker, bytes, media_hook, action_hook);
        state.osc_events = Vec::new();
        assert(crate::osc::event_views(state.osc_events@) =~= Seq::<
            crate::osc::OscEventView,
        >::empty());
        state.osc_scanner.scan(bytes, &mut state.osc_events);
        assert(crate::osc::event_views(state.osc_events@) =~= old(state).osc_scanner@.reports(
            bytes@,
        ));
        let mut observer = HistoryMutationObserver::default();
        proof {
            crate::emulator::lemma_step(begun, EmulatorStep::Watch(bytes@));
        }
        emulator.watch(&mut observer, bytes);
        let ghost watched = crate::emulator::steps(*emulator);
        let cursor_before = emulator.cursor();
        let look_before = emulator.cursor_look();
        let offset_before = emulator.display_offset();
        let modes_before = emulator.modes();
        let history_size_before = emulator.history_size();
        let alternate_before = emulator.shows_alternate();
        let (addressing, cells) = self.advance_recording_markers(
            emulator,
            bytes,
            &state.osc_events,
            &scanned.events,
            &mut state.pending_media_cursor,
        );
        let ghost walked = *self;
        place_media(&mut scanned.media, &cells);
        let ghost ended = crate::emulator::steps(*emulator);
        let cursor_after = emulator.cursor();
        let look_after = emulator.cursor_look();
        let offset_after = emulator.display_offset();
        let modes_after = emulator.modes();
        let history_size_after = emulator.history_size();
        let alternate_after = emulator.shows_alternate();
        let dirty_rows = emulator.collect_dirty_rows();
        proof {
            crate::emulator::lemma_step(ended, EmulatorStep::ReadDamage);
            crate::emulator::lemma_step(
                ended.push(EmulatorStep::ReadDamage),
                EmulatorStep::ResetDamage,
            );
        }
        let ghost settled_steps = crate::emulator::steps(*emulator);
        let batch = BatchReading {
            in_sync: situation.in_sync,
            sync_ended: situation.sync_ended,
            dirty_rows,
            render_state_changed: cursor_before.0 != cursor_after.0 || cursor_before.1
                != cursor_after.1 || look_before.0 != look_after.0 || look_before.1 != look_after.1
                || offset_before != offset_after || modes_before != modes_after,
            history_size_before,
            history_size_after,
            cursor_row_unchanged: cursor_before.0 == cursor_after.0,
            alt_screen_changed: alternate_before != alternate_after,
            bracketed_paste: modes_after & crate::emulator::BRACKETED_PASTE != 0,
            observer,
            has_media: has_media(&scanned.events),
        };
        let request = self.settle_batch(&mut state.window, &batch, &addressing);
        let ghost settled_pane = *self;
        let ghost held = state.window;
        let output_sequence = self.state.output_sequence;
        let wake = match &request {
            Some(request) => {
                let diff = emulator.diff_of(&request.dirty_rows);
                let scrolled = emulator.display_offset() != 0;
                let admitted = may_wake(request.force_broadcast);
                self.emit_generation(&mut state.window, request, diff, scrolled, admitted)
            },
            None => false,
        };
        let ghost emitted_pane = *self;
        self.dispatch_media_events(
            &scanned.events,
            &scanned.media,
            &scanned.actions,
            situation.media_hook,
            situation.action_hook,
        );
        let ghost dispatched_pane = *self;
        let effects = self.handle_pending_events(emulator);
        let ghost handled_pane = *self;
        let directories = self.follow_directories(&state.osc_events);
        let outcome = BatchOutcome { output_sequence, wake, effects, directories };
        proof {
            crate::emulator::lemma_step(settled_steps, EmulatorStep::TakeEvents);
            lemma_markers_keep_the_rest(
                (old(self).shell_markers@, old(self).state),
                old(self).walk_start(watched),
                bytes@,
                crate::marker_walk::walk_stops(state.osc_events@, scanned.events@),
                crate::marker_walk::walk_stops(
                    state.osc_events@,
                    scanned.events@,
                ).len() as int,
            );
            let trace = BatchTrace {
                steps: begun,
                settled_steps,
                walked,
                addressing,
                cells: cells@,
                batch,
                settled: settled_pane,
                held,
                request,
                emitted: emitted_pane,
                dispatched: dispatched_pane,
                handled: handled_pane,
            };
            assert(trace.explains(
                *old(self),
                *self,
                *old(state),
                *state,
                *old(scanned),
                *scanned,
                situation,
                outcome,
            ));
        }
        outcome
    }

    /// Take in one emulator event and say what it asks for, in order. `diff` is the whole
    /// screen, for the events that publish a generation.
    pub fn handle_event(&mut self, event: EmulatorEvent, diff: GridDiff) -> (effects: Vec<
        PaneEffect,
    >)
        requires
            old(self).wf(),
        ensures
            final(self).wf(),
            handled(*old(self), *final(self), event@, diff@, effect_views(effects@)),
    {
        let mut effects: Vec<PaneEffect> = Vec::new();
        match event {
            EmulatorEvent::Title(title) => {
                let shown = title.clone();
                self.set_title(title, diff);
                effects.push(PaneEffect::TitleChanged(shown));
                effects.push(PaneEffect::Dirty);
                assert(effect_views(effects@) =~= seq![
                    EffectView::TitleChanged(shown@),
                    EffectView::Dirty,
                ]);
            },
            EmulatorEvent::ResetTitle => {
                self.set_title(String::new(), diff);
                effects.push(PaneEffect::TitleChanged(String::new()));
                effects.push(PaneEffect::Dirty);
                assert(effect_views(effects@) =~= seq![
                    EffectView::TitleChanged(Seq::empty()),
                    EffectView::Dirty,
                ]);
            },
            EmulatorEvent::Bell => {
                effects.push(PaneEffect::Bell);
                assert(effect_views(effects@) =~= seq![EffectView::Bell]);
            },
            EmulatorEvent::PtyWrite(text) => {
                effects.push(PaneEffect::WritePty(text));
                assert(effect_views(effects@) =~= seq![EffectView::WritePty(text@)]);
            },
            EmulatorEvent::ClipboardStore(data) => {
                effects.push(PaneEffect::StoreClipboard(data));
                assert(effect_views(effects@) =~= seq![EffectView::StoreClipboard(data@)]);
            },
            EmulatorEvent::ClipboardLoad | EmulatorEvent::Other => {
                assert(effect_views(effects@) =~= Seq::<EffectView>::empty());
            },
            EmulatorEvent::Exit | EmulatorEvent::ChildExit => {
                self.set_alive(false);
                if self.fire_exit_hook() {
                    effects.push(PaneEffect::RunExitHook);
                    assert(effect_views(effects@) =~= seq![EffectView::RunExitHook]);
                } else {
                    assert(effect_views(effects@) =~= Seq::<EffectView>::empty());
                }
            },
        }
        effects
    }

    /// The title changed and a generation was published.
    pub open spec fn retitled(
        &self,
        before: &Pane,
        title: Seq<char>,
        rows: Seq<crate::grid_sync::RowView>,
    ) -> bool {
        &&& self.title@ == title
        &&& self.state == (PaneState {
            generation: capped_next(before.state.generation),
            ..before.state
        })
        &&& self.ring_published(before, rows, false)
        &&& self.same_but_title(before)
    }
}

impl PaneState {
    /// The state after the exit hook was taken.
    pub open spec fn hook_taken(self) -> PaneState {
        PaneState { exit_hook_installed: false, ..self }
    }

    /// The state after an exit hook was installed: a child that is gone has it taken at once.
    pub open spec fn hook_installed(self) -> PaneState {
        PaneState { exit_hook_installed: self.alive, ..self }
    }
}

/// The exit hook runs exactly once: at its installation if the child is gone, else at the first
/// take; later takes find nothing.
pub proof fn law_exit_hook_runs_once(before: PaneState)
    ensures
        !before.hook_taken().exit_hook_installed,
        before.hook_taken().hook_taken() == before.hook_taken(),
        before.alive ==> before.hook_installed().exit_hook_installed,
        !before.alive ==> !before.hook_installed().exit_hook_installed,
{
}

} // verus!
