//! What holds of a pane, whatever its program prints.
use vstd::prelude::*;
use vstd::utf8::*;

use crate::emulator::EventView;
use crate::marker_walk::Boundary;
use crate::osc::OscEvent;
use crate::pane::{
    BatchOutcome, BatchReading, BatchSituation, BatchTrace, ClearedPart, EffectView,
    GenerationRequest, GridLimits, HistoryMutationObserver, HistoryOperation, Pane, PaneState,
    PaneViewport, ReadAction, ReadEvent, ReadLoopState, ScanOutput, ShellMarker,
    ShellMarkerPosition, SyncWindow,
};
use crate::row_addressing::{RowAddressing, WalkPoint};
use crate::sync_update::SyncTracker;

verus! {

/// A grid can be carried exactly if it has a column and a row and stays within each of the limits.
pub proof fn law_carried_grid_is_within_the_limits(limits: GridLimits, cols: u32, rows: u32)
    ensures
        limits.admits(cols, rows) ==> cols > 0 && rows > 0 && cols <= limits.max_cols && rows
            <= limits.max_rows && cols * rows <= limits.max_cells,
        !limits.admits(cols, rows) ==> cols == 0 || rows == 0 || cols > limits.max_cols || rows
            > limits.max_rows || cols * rows > limits.max_cells,
{
}

/// Two clients get the smaller width and the smaller height of theirs; one gets its own.
pub proof fn law_two_clients_share_the_smaller_size(
    one: (String, PaneViewport),
    two: (String, PaneViewport),
    fit: PaneViewport,
)
    ensures
        crate::pane::is_min_fit(seq![one, two], fit) <==> {
            &&& fit.cols == (if one.1.cols <= two.1.cols {
                one.1.cols
            } else {
                two.1.cols
            })
            &&& fit.rows == (if one.1.rows <= two.1.rows {
                one.1.rows
            } else {
                two.1.rows
            })
        },
        crate::pane::is_min_fit(seq![one], fit) <==> fit == one.1,
{
    let both = seq![one, two];
    assert(both[0] == one && both[1] == two);
    let single = seq![one];
    assert(single[0] == one);
    if crate::pane::is_min_fit(single, fit) {
        assert(fit.cols == one.1.cols && fit.rows == one.1.rows);
    }
}

/// A pane that gets the size it is told to apply needs no other size then.
pub proof fn law_applied_size_fits(before: Pane, after: Pane, fit: PaneViewport)
    requires
        before.fits(Some(fit)),
        after.client_viewports == before.client_viewports,
        after.state.cols == fit.cols,
        after.state.rows == fit.rows,
    ensures
        after.fits(None),
        !after.fits(Some(fit)),
        before.state.cols != fit.cols || before.state.rows != fit.rows,
{
}

/// The line of a command: the program, and every argument behind a space.
pub proof fn law_arguments_stand_behind_spaces(program: Seq<char>, args: Seq<String>, arg: String)
    ensures
        crate::pane::command_line(program, Seq::empty()) == program + seq![' '],
        crate::pane::command_line(program, seq![arg]) == program + seq![' '] + arg@,
        args.len() > 0 ==> crate::pane::command_line(program, args.push(arg))
            == crate::pane::command_line(program, args) + seq![' '] + arg@,
{
    reveal_with_fuel(crate::pane::spaced, 2);
    assert(args.push(arg).drop_last() =~= args);
    assert(seq![arg].drop_last() =~= Seq::<String>::empty());
    assert(crate::pane::command_line(program, seq![arg]) =~= program + seq![' '] + arg@);
    assert(program + (crate::pane::spaced(args) + seq![' '] + arg@) =~= program
        + crate::pane::spaced(args) + seq![' '] + arg@);
}

/// A program is told its terminal, its pane under two names, and its session where it has one.
pub proof fn law_program_is_told_where_it_runs(id: Seq<char>, session_id: Seq<char>)
    ensures
        ({
            let env = crate::pane::pane_env(id, session_id);
            &&& env.contains(("TERM"@, "xterm-256color"@))
            &&& env.contains(("COLORTERM"@, "truecolor"@))
            &&& env.contains(("Z3RM_PANE_ID"@, id))
            &&& env.contains(("Z3RM_PANE"@, id))
            &&& session_id.len() > 0 ==> env.len() == 5 && env.contains(
                ("Z3RM_SESSION"@, session_id),
            )
            &&& session_id.len() == 0 ==> env.len() == 4
        }),
{
    let env = crate::pane::pane_env(id, session_id);
    assert(env[0] == ("TERM"@, "xterm-256color"@));
    assert(env[1] == ("COLORTERM"@, "truecolor"@));
    assert(env[2] == ("Z3RM_PANE_ID"@, id));
    assert(env[3] == ("Z3RM_PANE"@, id));
    if session_id.len() > 0 {
        assert(env[4] == ("Z3RM_SESSION"@, session_id));
    }
}

/// What scrolls rows may rotate a full history: a line feed, scrolling either way, inserting and
/// deleting lines, clearing the whole screen or the saved lines, and a reset. Typing, colours and
/// clearing a part of the screen do not.
pub proof fn law_scrolling_may_rotate(observer: HistoryMutationObserver)
    requires
        !observer.may_rotate,
    ensures
        observer.observed(HistoryOperation::LineFeed).may_rotate,
        observer.observed(HistoryOperation::NewLine).may_rotate,
        observer.observed(HistoryOperation::ScrollUp).may_rotate,
        observer.observed(HistoryOperation::ScrollDown).may_rotate,
        observer.observed(HistoryOperation::InsertBlankLines).may_rotate,
        observer.observed(HistoryOperation::DeleteLines).may_rotate,
        observer.observed(HistoryOperation::ReverseIndex).may_rotate,
        observer.observed(HistoryOperation::ResetState).may_rotate,
        observer.observed(HistoryOperation::ClearScreen(ClearedPart::All)).may_rotate,
        observer.observed(HistoryOperation::ClearScreen(ClearedPart::Saved)).may_rotate,
        !observer.observed(HistoryOperation::ClearScreen(ClearedPart::Above)).may_rotate,
        !observer.observed(HistoryOperation::ClearScreen(ClearedPart::Below)).may_rotate,
        !observer.observed(HistoryOperation::Input).may_rotate,
        !observer.observed(HistoryOperation::SetColor).may_rotate,
        !observer.observed(HistoryOperation::ResetColor).may_rotate,
        !observer.observed(HistoryOperation::AlignmentTest).may_rotate,
        forall|number: u16|
            !(#[trigger] observer.observed(
                HistoryOperation::SetPrivateMode { number },
            )).may_rotate,
        forall|number: u16|
            !(#[trigger] observer.observed(
                HistoryOperation::UnsetPrivateMode { number },
            )).may_rotate,
{
}

/// Rows are renumbered by clearing the saved lines, by a reset, and by setting the mode of 132
/// columns or that of the other screen with its cursor; by nothing else. What was seen is not
/// forgotten.
pub proof fn law_renumbering_breaks_addressing(
    observer: HistoryMutationObserver,
    operation: HistoryOperation,
)
    ensures
        observer.observed(operation).may_break_addressing <==> observer.may_break_addressing
            || operation == HistoryOperation::ClearScreen(ClearedPart::Saved) || operation
            == HistoryOperation::ResetState || operation == (HistoryOperation::SetPrivateMode {
            number: 3,
        }) || operation == (HistoryOperation::SetPrivateMode { number: 1049 }),
        observer.may_rotate ==> observer.observed(operation).may_rotate,
{
}

/// Output is taken in; the end of the output and a failure end the loop; an interruption does not;
/// and in silence what an update held back for too long is published, else a postponed wakeup goes
/// out.
pub proof fn law_read_loop_goes_on_until_the_end(sync_timed_out: bool)
    ensures
        ReadEvent::Bytes.action() == ReadAction::Process,
        ReadEvent::EndOfFile.action() == ReadAction::Stop,
        ReadEvent::Failed.action() == ReadAction::Stop,
        ReadEvent::Interrupted.action() == ReadAction::Continue,
        (ReadEvent::Quiet { sync_timed_out: true }).action() == ReadAction::ForceFlush,
        (ReadEvent::WouldBlock { sync_timed_out: true }).action() == ReadAction::ForceFlush,
        (ReadEvent::Quiet { sync_timed_out: false }).action() == ReadAction::FlushNotify,
        (ReadEvent::WouldBlock { sync_timed_out: false }).action() == ReadAction::Continue,
{
}

/// Cached history is stale after a batch that changed its size, that renumbered what is left of it,
/// or that may have rotated it while it was full and the cursor stayed on its row; and after no
/// other.
pub proof fn law_history_is_stale_after_a_change(batch: BatchReading, capacity: u64)
    ensures
        batch.history_size_before != batch.history_size_after ==> batch.history_changed(capacity),
        batch.observer.may_break_addressing && batch.history_size_after > 0
            ==> batch.history_changed(capacity),
        batch.observer.may_rotate && batch.cursor_row_unchanged && capacity > 0
            && batch.history_size_after >= capacity ==> batch.history_changed(capacity),
        batch.history_size_before == batch.history_size_after && !batch.observer.may_rotate
            && !batch.observer.may_break_addressing ==> !batch.history_changed(capacity),
        batch.history_size_before == batch.history_size_after && batch.history_size_after == 0
            ==> !batch.history_changed(capacity),
        batch.history_size_before == batch.history_size_after && !batch.cursor_row_unchanged
            && !batch.observer.may_break_addressing ==> !batch.history_changed(capacity),
        batch.history_size_before == batch.history_size_after && batch.history_size_after < capacity
            && !batch.observer.may_break_addressing ==> !batch.history_changed(capacity),
{
}

/// A batch keeps the numbering of rows unless the screen was switched, rows were renumbered, the
/// headroom was used up, or history shrank; then every marker recorded before is retired, and the
/// numbering goes on above all rows there are.
pub proof fn law_numbering_is_kept_or_retired(
    before: PaneState,
    addressing: RowAddressing,
    batch: BatchReading,
)
    requires
        addressing.viewport_top + batch.history_size_after <= u64::MAX,
        before.row_addressing_epoch < u64::MAX,
    ensures
        ({
            let after = before.rows_committed(addressing, batch);
            let lost = batch.alt_screen_changed || batch.observer.may_break_addressing
                || addressing.saturated || batch.history_size_after < batch.history_size_before;
            &&& !lost ==> after == (PaneState {
                viewport_top_absolute: addressing.viewport_top,
                ..before
            })
            &&& lost ==> after == (PaneState {
                viewport_top_absolute: (addressing.viewport_top + batch.history_size_after) as u64,
                row_addressing_epoch: (before.row_addressing_epoch + 1) as u64,
                ..before
            })
        }),
{
}

/// A marker of the current numbering is in history, counted from the oldest row that is left, or in
/// the viewport, counted from its first row; one of a row that is gone, and one of another numbering,
/// is nowhere.
pub proof fn law_marker_is_found_where_its_row_is(
    state: PaneState,
    marker: ShellMarker,
    history_size: int,
    screen_lines: int,
)
    requires
        0 <= history_size <= state.viewport_top_absolute,
        history_size <= u32::MAX,
        0 <= screen_lines <= u32::MAX,
    ensures
        ({
            let oldest = state.viewport_top_absolute - history_size;
            let row = marker.absolute_row as int;
            let position = state.position(marker, history_size, screen_lines);
            &&& marker.epoch != state.row_addressing_epoch ==> position is Unavailable
            &&& marker.epoch == state.row_addressing_epoch ==> match position {
                ShellMarkerPosition::History { index } => oldest + index == row && index
                    < history_size,
                ShellMarkerPosition::Viewport { line } => state.viewport_top_absolute + line == row
                    && line < screen_lines,
                ShellMarkerPosition::Unavailable => row < oldest || row
                    >= state.viewport_top_absolute + screen_lines,
            }
        }),
{
}

/// A shell marker is recorded behind those before it, under the next number and the current
/// numbering, at the row of the cursor below the top of the viewport; of more than 1024 the oldest
/// leaves. Nothing else is recorded.
pub proof fn law_marker_is_recorded_at_the_cursor(
    before: (Seq<ShellMarker>, PaneState),
    stop: Boundary,
    viewport_top: u64,
    cursor_line: i32,
    cursor_column: usize,
)
    requires
        before.0.len() <= 1024,
        before.1.marker_sequence < u64::MAX,
        before.1.prompt_marker < u64::MAX,
        0 <= cursor_line,
        viewport_top + cursor_line <= u64::MAX,
        cursor_column <= u32::MAX,
    ensures
        ({
            let after = crate::pane::marker_recorded(
                before,
                stop,
                viewport_top,
                cursor_line,
                cursor_column,
            );
            match stop {
                Boundary::Marker { kind, exit_code } => {
                    &&& after.0.len() > 0
                    &&& after.0.last() == (ShellMarker {
                        sequence: (before.1.marker_sequence + 1) as u64,
                        kind,
                        absolute_row: (viewport_top + cursor_line) as u64,
                        column: cursor_column as u32,
                        exit_code,
                        epoch: before.1.row_addressing_epoch,
                    })
                    &&& before.0.len() < 1024 ==> after.0.drop_last() == before.0
                    &&& before.0.len() == 1024 ==> after.0.drop_last() == before.0.drop_first()
                    &&& after.1.marker_sequence == before.1.marker_sequence + 1
                    &&& after.1.prompt_marker == before.1.prompt_marker + 1
                    &&& after.1.row_addressing_epoch == before.1.row_addressing_epoch
                    &&& after.1.viewport_top_absolute == before.1.viewport_top_absolute
                },
                _ => after == before,
            }
        }),
{
    let after = crate::pane::marker_recorded(
        before,
        stop,
        viewport_top,
        cursor_line,
        cursor_column,
    );
    match stop {
        Boundary::Marker { .. } => {
            if before.0.len() < 1024 {
                assert(after.0.drop_last() =~= before.0);
            } else {
                assert(after.0.drop_last() =~= before.0.drop_first());
            }
        },
        _ => {},
    }
}

/// Every batch gets the next number, and a new version of history exactly if cached history is
/// stale then.
pub proof fn law_batch_moves_the_counters(
    before: Pane,
    after: Pane,
    held: SyncWindow,
    left: SyncWindow,
    batch: BatchReading,
    addressing: RowAddressing,
    request: Option<GenerationRequest>,
)
    requires
        crate::pane::settled(before, after, held, left, batch, addressing, request),
        before.state.output_sequence < u64::MAX,
        before.state.history_version < u64::MAX,
    ensures
        after.state.output_sequence == before.state.output_sequence + 1,
        batch.history_changed(before.state.scrollback_capacity) ==> after.state.history_version
            == before.state.history_version + 1,
        !batch.history_changed(before.state.scrollback_capacity) ==> after.state.history_version
            == before.state.history_version,
        after.state.bracketed_paste_mode == batch.bracketed_paste,
        after.state.generation == before.state.generation,
        after.cwd == before.cwd,
        after.title == before.title,
        after.shell_markers == before.shell_markers,
{
}

/// Outside of a synchronized update, and at its end, whatever changed is published: every row that
/// was damaged now or held back before, each once and in order, with a whole snapshot where the
/// cursor, the modes or history changed too. Where nothing changed and nothing was held back,
/// nothing is published. The end of an update insists that clients are woken.
pub proof fn law_change_is_published(
    before: Pane,
    after: Pane,
    held: SyncWindow,
    left: SyncWindow,
    batch: BatchReading,
    addressing: RowAddressing,
    request: Option<GenerationRequest>,
    row: usize,
)
    requires
        crate::pane::settled(before, after, held, left, batch, addressing, request),
        !batch.in_sync || batch.sync_ended,
    ensures
        request is Some <==> batch.dirty_rows@.len() > 0 || batch.render_state_changed
            || batch.has_media || batch.history_changed(before.state.scrollback_capacity)
            || held.pending_sync,
        request matches Some(request) ==> {
            &&& request.dirty_rows@.contains(row) <==> held.pending_dirty_rows@.contains(row)
                || batch.dirty_rows@.contains(row)
            &&& forall|i: int, j: int|
                0 <= i < j < request.dirty_rows@.len() ==> #[trigger] request.dirty_rows@[i]
                    < #[trigger] request.dirty_rows@[j]
            &&& request.requires_full_snapshot <==> held.pending_full_snapshot
                || batch.render_state_changed || batch.history_changed(
                before.state.scrollback_capacity,
            )
            &&& request.force_broadcast == batch.sync_ended
            &&& !left.pending_sync && left.pending_dirty_rows@.len() == 0
                && !left.pending_full_snapshot
        },
{
    let rows = held.pending_dirty_rows@ + batch.dirty_rows@;
    match request {
        Some(request) => {
            assert(request.dirty_rows@.contains(row) <==> rows.contains(row));
            if held.pending_dirty_rows@.contains(row) {
                let i = choose|i: int|
                    0 <= i < held.pending_dirty_rows@.len() && held.pending_dirty_rows@[i] == row;
                assert(rows[i] == row);
            }
            if batch.dirty_rows@.contains(row) {
                let i = choose|i: int|
                    0 <= i < batch.dirty_rows@.len() && batch.dirty_rows@[i] == row;
                assert(rows[held.pending_dirty_rows@.len() + i] == row);
            }
        },
        None => {},
    }
}

/// Inside a synchronized update nothing is published, and nothing of what changed is lost: its rows
/// are held back behind those that were.
pub proof fn law_update_holds_changes_back(
    before: Pane,
    after: Pane,
    held: SyncWindow,
    left: SyncWindow,
    batch: BatchReading,
    addressing: RowAddressing,
    request: Option<GenerationRequest>,
)
    requires
        crate::pane::settled(before, after, held, left, batch, addressing, request),
        batch.in_sync,
        !batch.sync_ended,
    ensures
        request is None,
        batch.dirty_rows@.len() > 0 ==> left.pending_sync && left.pending_dirty_rows@
            == held.pending_dirty_rows@ + batch.dirty_rows@,
        batch.render_state_changed || batch.history_changed(before.state.scrollback_capacity)
            ==> left.pending_sync && left.pending_full_snapshot,
        batch.has_media ==> left.pending_sync,
        held.pending_sync ==> left.pending_sync,
        held.pending_full_snapshot ==> left.pending_full_snapshot,
{
}

/// A published generation is the next one, is the newest in the ring with its rows, and asks for a
/// whole snapshot where that was requested or the view is scrolled; a wakeup that may not go out is
/// postponed.
pub proof fn law_generation_is_published(
    before: Pane,
    after: Pane,
    held: SyncWindow,
    left: SyncWindow,
    request: GenerationRequest,
    rows: Seq<crate::grid_sync::RowView>,
    scrolled: bool,
    admitted: bool,
)
    requires
        crate::pane::emitted(before, after, held, left, request, rows, scrolled, admitted),
        before.state.generation < u64::MAX,
        before.grid_diff_ring.bound() > 0,
    ensures
        after.state.generation == before.state.generation + 1,
        after.grid_diff_ring@.len() > 0,
        after.grid_diff_ring@.last() == (crate::grid_sync::EntryView {
            generation: after.state.generation,
            rows,
            requires_full_snapshot: request.requires_full_snapshot || scrolled,
        }),
        left.pending_notify == !admitted,
{
}

/// What the emulator reports is passed on: a title becomes the pane's and makes a generation, and
/// resetting it empties it; a bell rings; what it answers is written to the program; a copied text
/// goes to the clipboard; and with the program the pane ends, which runs the exit hook where one is
/// installed.
pub proof fn law_report_is_passed_on(
    before: Pane,
    after: Pane,
    text: Seq<char>,
    screen: Seq<crate::grid_sync::RowView>,
    effects: Seq<EffectView>,
)
    requires
        before.state.generation < u64::MAX,
    ensures
        crate::pane::handled(before, after, EventView::Title(text), screen, effects) ==> after.title@
            == text && after.state.generation == before.state.generation + 1 && effects == seq![
            EffectView::TitleChanged(text),
            EffectView::Dirty,
        ] && after.cwd == before.cwd,
        crate::pane::handled(before, after, EventView::ResetTitle, screen, effects)
            ==> after.title@.len() == 0 && after.state.generation == before.state.generation + 1,
        crate::pane::handled(before, after, EventView::Bell, screen, effects) ==> effects == seq![
            EffectView::Bell,
        ] && after == before,
        crate::pane::handled(before, after, EventView::PtyWrite(text), screen, effects) ==> effects
            == seq![EffectView::WritePty(text)] && after == before,
        crate::pane::handled(before, after, EventView::ClipboardStore(text), screen, effects)
            ==> effects == seq![EffectView::StoreClipboard(text)] && after == before,
        crate::pane::handled(before, after, EventView::ClipboardLoad, screen, effects)
            ==> effects.len() == 0 && after == before,
        crate::pane::handled(before, after, EventView::Other, screen, effects) ==> effects.len() == 0
            && after == before,
        crate::pane::handled(before, after, EventView::Exit, screen, effects) || crate::pane::handled(
            before,
            after,
            EventView::ChildExit,
            screen,
            effects,
        ) ==> {
            &&& !after.state.alive
            &&& !after.state.exit_hook_installed
            &&& before.state.exit_hook_installed ==> effects == seq![EffectView::RunExitHook]
            &&& !before.state.exit_hook_installed ==> effects.len() == 0
            &&& after.title == before.title
        },
{
}

/// The last directory that was reported is where the pane is; clients are told of each report that
/// changes it, and of no other. Shell markers report none.
pub proof fn law_last_reported_directory_holds(
    cwd: Seq<char>,
    events: Seq<OscEvent>,
    event: OscEvent,
)
    ensures
        crate::pane::followed(cwd, Seq::empty()) == (cwd, Seq::<Seq<char>>::empty()),
        ({
            let before = crate::pane::followed(cwd, events);
            let after = crate::pane::followed(cwd, events.push(event));
            match event {
                OscEvent::ShellMarker { .. } => after == before,
                OscEvent::Cwd(uri) => {
                    let path = crate::cwd::reported_path(uri@);
                    let directory = crate::cwd::utf8_lossy(
                        crate::cwd::percent_decoded(encode_utf8(path)),
                    );
                    &&& path.len() == 0 ==> after == before
                    &&& path.len() > 0 ==> after.0 == directory
                    &&& path.len() > 0 && directory != before.0 ==> after.1 == before.1.push(
                        directory,
                    )
                    &&& path.len() > 0 && directory == before.0 ==> after.1 == before.1
                },
            }
        }),
{
    assert(events.push(event).drop_last() =~= events);
}

/// What is known of a batch is what its tracker says once it has taken it in.
pub proof fn law_situation_follows_the_tracker(
    tracker: SyncTracker,
    bytes: Seq<u8>,
    media_hook: bool,
    action_hook: bool,
)
    ensures
        ({
            let situation = BatchSituation::of(tracker, bytes, media_hook, action_hook);
            &&& situation.media_hook == media_hook
            &&& situation.action_hook == action_hook
            &&& situation.in_sync == tracker.after(bytes).open
            &&& tracker.open && !situation.in_sync ==> situation.sync_ended
            &&& situation.sync_ended && bytes.len() == 1 ==> tracker.open && !situation.in_sync
        }),
{
    if tracker.open && !tracker.after(bytes).open {
        lemma_closing_is_seen(tracker, bytes);
    }
    if bytes.len() == 1 && tracker.ends_in(bytes) {
        reveal_with_fuel(SyncTracker::after, 2);
        let i = choose|i: int|
            0 <= i < bytes.len() && (#[trigger] tracker.after(bytes.take(i))).open
                && !tracker.after(bytes.take(i)).stepped(bytes[i]).open;
        assert(bytes.take(0) =~= Seq::<u8>::empty());
        assert(bytes.drop_last() =~= Seq::<u8>::empty());
    }
}

proof fn lemma_closing_is_seen(tracker: SyncTracker, bytes: Seq<u8>)
    requires
        tracker.open,
        !tracker.after(bytes).open,
    ensures
        tracker.ends_in(bytes),
    decreases bytes.len(),
{
    let head = bytes.drop_last();
    let last = bytes.len() - 1;
    assert(bytes.take(last) =~= head);
    if !tracker.after(head).open {
        lemma_closing_is_seen(tracker, head);
        let i = choose|i: int|
            0 <= i < head.len() && (#[trigger] tracker.after(head.take(i))).open && !tracker.after(
                head.take(i),
            ).stepped(head[i]).open;
        assert(head.take(i) =~= bytes.take(i));
        assert(tracker.after(bytes.take(i)).open);
    } else {
        assert(tracker.after(bytes.take(last)).open);
    }
}

/// Recording markers changes only what belongs to markers.
proof fn lemma_markers_change_only_markers(
    before: (Seq<ShellMarker>, PaneState),
    start: WalkPoint,
    bytes: Seq<u8>,
    stops: Seq<(usize, Boundary)>,
    n: int,
)
    ensures
        ({
            let after = crate::pane::markers_recorded(before, start, bytes, stops, n).1;
            after == (PaneState {
                marker_sequence: after.marker_sequence,
                prompt_marker: after.prompt_marker,
                ..before.1
            })
        }),
    decreases n,
{
    if n > 0 {
        lemma_markers_change_only_markers(before, start, bytes, stops, n - 1);
    }
}

/// A batch as a whole: it gets the next number, its own sequences are reported whatever came before
/// it, and the directories that it reports are followed.
pub proof fn law_batch_is_taken_in(
    trace: BatchTrace,
    before: Pane,
    after: Pane,
    state_before: ReadLoopState,
    state_after: ReadLoopState,
    scanned_before: ScanOutput,
    scanned_after: ScanOutput,
    situation: BatchSituation,
    outcome: BatchOutcome,
)
    requires
        trace.explains(
            before,
            after,
            state_before,
            state_after,
            scanned_before,
            scanned_after,
            situation,
            outcome,
        ),
        before.state.output_sequence < u64::MAX,
    ensures
        outcome.output_sequence == before.state.output_sequence + 1,
        crate::osc::event_views(state_after.osc_events@) == state_before.osc_scanner@.reports(
            scanned_before.grid_bytes@,
        ),
        (after.cwd@, crate::layout::text_views(outcome.directories@)) == crate::pane::followed(
            trace.handled.cwd@,
            state_after.osc_events@,
        ),
        trace.walked.cwd == before.cwd,
        trace.batch.in_sync == situation.in_sync,
        trace.batch.sync_ended == situation.sync_ended,
        situation.in_sync && !situation.sync_ended ==> !outcome.wake,
{
    let watched = trace.steps.push(
        crate::emulator::EmulatorStep::Watch(scanned_before.grid_bytes@),
    );
    let start = before.walk_start(watched);
    let stops = crate::marker_walk::walk_stops(state_after.osc_events@, scanned_before.events@);
    lemma_markers_change_only_markers(
        (before.shell_markers@, before.state),
        start,
        scanned_before.grid_bytes@,
        stops,
        stops.len() as int,
    );
}

/// What a batch did to the emulator is read off it: another cursor, another look of it, another
/// scroll offset or other modes change what is drawn.
pub proof fn law_drawing_state_is_compared(
    batch: BatchReading,
    before: Seq<crate::emulator::EmulatorStep>,
    after: Seq<crate::emulator::EmulatorStep>,
    observer: HistoryMutationObserver,
    scan_events: Seq<crate::marker_walk::ScanEvent>,
    situation: BatchSituation,
)
    requires
        batch.reads(before, after, observer, scan_events, situation),
    ensures
        batch.render_state_changed <==> crate::emulator::cursor_at(before)
            != crate::emulator::cursor_at(after) || crate::emulator::cursor_look_at(before)
            != crate::emulator::cursor_look_at(after) || crate::emulator::display_offset_at(before)
            != crate::emulator::display_offset_at(after) || crate::emulator::modes_at(before)
            != crate::emulator::modes_at(after),
        batch.cursor_row_unchanged <==> crate::emulator::cursor_at(before).0
            == crate::emulator::cursor_at(after).0,
        batch.bracketed_paste <==> crate::emulator::modes_at(after) & 0x10 != 0,
        batch.alt_screen_changed <==> (crate::emulator::modes_at(before) & 0x1000 != 0) != (
        crate::emulator::modes_at(after) & 0x1000 != 0),
        batch.has_media ==> scan_events.len() > 0,
{
}

/// The pane's counters go up by one; at the largest number the ones that clients compare by size
/// stay there, and the ones that clients compare by difference start anew.
pub proof fn law_counters_go_up_by_one(n: u64)
    ensures
        n < u64::MAX ==> crate::pane::capped_next(n) == n + 1 && crate::pane::wrapped_next(n) == n
            + 1,
        crate::pane::capped_next(u64::MAX) == u64::MAX,
        crate::pane::wrapped_next(u64::MAX) == 0,
{
}

/// What is published comes last in the ring, under the generation behind the pane's, with its rows
/// and whether it asks for the whole screen; what stood there before keeps its order, and only the
/// oldest leaves for it.
pub proof fn law_published_entry_is_the_newest(
    before: Pane,
    after: Pane,
    rows: Seq<crate::grid_sync::RowView>,
    full: bool,
    back: int,
)
    requires
        after.ring_published(&before, rows, full),
        before.grid_diff_ring.bound() > 0,
        before.state.generation < u64::MAX,
    ensures
        ({
            let ring = after.grid_diff_ring@;
            let former = before.grid_diff_ring@;
            &&& 0 < ring.len() <= before.grid_diff_ring.bound()
            &&& ring.len() == former.len() + 1 || ring.len() == before.grid_diff_ring.bound()
            &&& ring.last().generation == before.state.generation + 1
            &&& ring.last().rows == rows
            &&& ring.last().requires_full_snapshot == full
            &&& 1 <= back < ring.len() ==> ring[ring.len() - 1 - back] == former[former.len()
                - back]
        }),
{
}

/// A new title is told as a change of the rows given with it, and changes nothing else of the pane.
pub proof fn law_new_title_is_published(
    before: Pane,
    after: Pane,
    title: Seq<char>,
    rows: Seq<crate::grid_sync::RowView>,
)
    requires
        after.retitled(&before, title, rows),
        before.grid_diff_ring.bound() > 0,
        before.state.generation < u64::MAX,
    ensures
        after.title@ == title,
        after.state.generation == before.state.generation + 1,
        after.state.output_sequence == before.state.output_sequence,
        after.state.history_version == before.state.history_version,
        after.state.zoomed == before.state.zoomed,
        after.grid_diff_ring@.last().generation == before.state.generation + 1,
        after.grid_diff_ring@.last().rows == rows,
        !after.grid_diff_ring@.last().requires_full_snapshot,
        after.id == before.id,
        after.cwd == before.cwd,
        after.command == before.command,
        after.session_id == before.session_id,
        after.shell_markers == before.shell_markers,
        after.pending_typed_events == before.pending_typed_events,
{
}

/// Handing typed events on appends them to those that wait, and leaves the rest of the pane alone
/// but for the counter of the stamps.
pub proof fn law_typed_events_wait_behind_the_others(
    before: Pane,
    after: Pane,
    scan_events: Seq<crate::marker_walk::ScanEvent>,
    media: Seq<crate::typed_events::PaneMedia>,
    actions: Seq<crate::typed_events::PaneAction>,
    media_hook: bool,
    action_hook: bool,
)
    requires
        crate::pane::dispatched(
            before,
            after,
            scan_events,
            media,
            actions,
            media_hook,
            action_hook,
        ),
    ensures
        after.pending_typed_events@.queue.len() >= before.pending_typed_events@.queue.len(),
        after.pending_typed_events@.queue.take(before.pending_typed_events@.queue.len() as int)
            == before.pending_typed_events@.queue,
        after.pending_typed_events@.draining == before.pending_typed_events@.draining,
        scan_events.len() == 0 ==> after.state.media_sequence == before.state.media_sequence,
        after.state.generation == before.state.generation,
        after.state.output_sequence == before.state.output_sequence,
        after.state.history_version == before.state.history_version,
        after.id == before.id,
        after.cwd == before.cwd,
        after.title == before.title,
        after.command == before.command,
        after.session_id == before.session_id,
        after.grid_diff_ring == before.grid_diff_ring,
        after.client_viewports == before.client_viewports,
        after.shell_markers == before.shell_markers,
{
    let former = before.pending_typed_events@.queue;
    let events = choose|events: Seq<crate::typed_events::PendingTypedEvent>| #[trigger]
        crate::typed_events::typed_views(events) == crate::typed_events::stamped(
            scan_events,
            before.id@,
            before.state.media_sequence,
            crate::typed_events::media_views(media),
            crate::typed_events::action_views(actions),
        ) && after.pending_typed_events@ == (crate::typed_events::QueueModel {
            queue: former + crate::typed_events::retained(
                events,
                before.session_id is Some,
                media_hook,
                action_hook,
            ),
            ..before.pending_typed_events@
        });
    let kept = crate::typed_events::retained(
        events,
        before.session_id is Some,
        media_hook,
        action_hook,
    );
    assert((former + kept).take(former.len() as int) =~= former);
}

} // verus!
