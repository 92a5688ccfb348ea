//! A pane driven by a terminal emulator: generations, history versions and the rows of shell
//! markers.

use z3rm::emulator::{
    cell_of, color_number, holds_no_wide, CellColor, Emulator, RawCell, BRACKETED_PASTE,
    MAX_HISTORY_LIMIT,
};
use z3rm::grid_sync::{FullGridSnapshot, GridUpdate, RowChange};
use z3rm::marker_walk::{has_media, ScanEvent};
use z3rm::osc::ShellMarkerKind;
use z3rm::pane::{
    batch_situation, check_scrollback_request, BatchOutcome, BatchSituation, GridLimits, Pane,
    PaneEffect, PaneSizeError, PaneViewport, ReadLoopState, ScanOutput, ScrollbackError,
    ShellMarker, ShellMarkerPosition, MAX_GRID_CELLS, MAX_GRID_COLS, MAX_GRID_ROWS,
    MAX_RECORDED_SHELL_MARKERS, MAX_SCROLLBACK_LINES,
};
use z3rm::row_addressing::{RowAddressing, ROW_ADDRESSING_HEADROOM};
use z3rm::sync_update::SyncTracker;
use z3rm::typed_events::{place_media, DrainStep, PaneAction, PaneMedia, PendingTypedEvent};

const LIMITS: GridLimits = GridLimits {
    max_cols: MAX_GRID_COLS,
    max_rows: MAX_GRID_ROWS,
    max_cells: MAX_GRID_CELLS,
};

/// The mode bit of application cursor keys.
const APP_CURSOR: u32 = 1 << 1;

struct Driven {
    pane: Pane,
    emulator: Emulator,
    tracker: SyncTracker,
    state: ReadLoopState,
}

impl Driven {
    fn open(cols: u32, rows: u32, scrollback: usize) -> Self {
        let pane = Pane::new(
            &LIMITS,
            "pane".to_string(),
            "session".to_string(),
            "/".to_string(),
            cols,
            rows,
            None,
            scrollback,
            1,
        )
        .unwrap();
        let emulator = Emulator::new(cols as usize, rows as usize, scrollback);
        Driven { pane, emulator, tracker: SyncTracker::new(), state: ReadLoopState::new() }
    }

    fn feed(&mut self, bytes: &[u8]) -> BatchOutcome {
        self.feed_with(bytes, &Vec::new(), &mut Vec::new(), &Vec::new())
    }

    fn feed_with(
        &mut self,
        bytes: &[u8],
        scanned: &Vec<ScanEvent>,
        media: &mut Vec<PaneMedia>,
        actions: &Vec<PaneAction>,
    ) -> BatchOutcome {
        self.feed_in(bytes, scanned, media, actions, true)
    }

    fn feed_in(
        &mut self,
        bytes: &[u8],
        scanned: &Vec<ScanEvent>,
        media: &mut Vec<PaneMedia>,
        actions: &Vec<PaneAction>,
        admitted: bool,
    ) -> BatchOutcome {
        let mut output = ScanOutput {
            grid_bytes: bytes.to_vec(),
            media: std::mem::take(media),
            actions: actions.iter().map(same_action).collect(),
            events: scanned.clone(),
        };
        let outcome = self.pane.process_pty_bytes(
            &mut self.emulator,
            &mut self.tracker,
            &mut self.state,
            &mut output,
            true,
            true,
            |insist| insist || admitted,
        );
        *media = output.media;
        outcome
    }

    fn has_mode(&self, bit: u32) -> bool {
        self.emulator.mode_bits() & bit != 0
    }

    fn snapshot(&self) -> FullGridSnapshot {
        self.emulator.snapshot(self.pane.get_scrollback_version())
    }

    fn character(&self, index: usize) -> String {
        self.snapshot().cells[index].character.clone()
    }

    fn update_since(&self, generation: u64) -> (GridUpdate, u64) {
        self.pane.fetch_grid_update(generation, || self.snapshot())
    }

    fn scrollback(&self, count: u32) -> (Vec<RowChange>, u32, u64) {
        self.pane.fetch_scrollback(&LIMITS, &self.emulator, 0, 1, count)
    }

    fn scrollback_checked(
        &self,
        direction: u32,
        count: u32,
    ) -> Result<(Vec<RowChange>, u32, u64), ScrollbackError> {
        self.pane.fetch_scrollback_checked(&LIMITS, &self.emulator, 0, direction, count)
    }

    fn resize(&mut self, cols: u32, rows: u32) -> Result<(), PaneSizeError> {
        Pane::check_resize(&LIMITS, cols, rows)?;
        self.pane.resize(&mut self.emulator, cols, rows);
        Ok(())
    }

    fn report(&mut self, client_id: &str, cols: u32, rows: u32) -> Result<(), PaneSizeError> {
        let size =
            self.pane.set_client_viewport(&LIMITS, client_id.to_string(), cols, rows)?;
        match size {
            Some(fit) => self.resize(fit.cols, fit.rows),
            None => Ok(()),
        }
    }

    fn detach(&mut self, client_id: &str) {
        if let Some(fit) = self.pane.remove_client_viewport(client_id) {
            self.resize(fit.cols, fit.rows).unwrap();
        }
    }

    fn size(&self) -> (u32, u32) {
        (self.pane.get_cols(), self.pane.get_rows())
    }

    fn locate(&self, marker: &ShellMarker) -> ShellMarkerPosition {
        self.pane.locate_shell_marker(
            marker,
            self.emulator.history_rows(),
            self.pane.get_rows() as usize,
        )
    }

    fn marker_of(&self, kind: ShellMarkerKind) -> ShellMarker {
        self.pane.shell_markers().into_iter().find(|marker| marker.kind == kind).unwrap()
    }
}

fn same_action(action: &PaneAction) -> PaneAction {
    PaneAction {
        pane_id: action.pane_id.clone(),
        sequence: action.sequence,
        payload: action.payload.clone(),
    }
}

#[test]
fn mode_only_output_publishes_full_generation() {
    let mut driven = Driven::open(20, 5, 10_000);

    driven.feed(b"baseline");
    let (_, baseline_output_sequence) = driven.update_since(0);
    assert_eq!(baseline_output_sequence, 1);
    assert_eq!(driven.pane.get_generation(), 1);

    driven.feed(b"\x1b[?1h\x1b[?2004h");

    assert_eq!(driven.pane.get_generation(), 2);
    let (update, output_sequence) = driven.update_since(1);
    assert_eq!(output_sequence, 2);
    assert!(matches!(update, GridUpdate::FullSnapshot { .. }));
    assert!(driven.has_mode(APP_CURSOR));
    assert!(driven.pane.is_bracketed_paste_active());
}

#[test]
fn mode_only_output_preserves_existing_history_version() {
    let mut driven = Driven::open(4, 2, 10);

    driven.feed(b"A\r\nB\r\n");
    let history_version = driven.pane.get_scrollback_version();
    let generation = driven.pane.get_generation();

    driven.feed(b"\x1b[?1h");

    assert_eq!(driven.pane.get_scrollback_version(), history_version);
    match driven.update_since(generation).0 {
        GridUpdate::FullSnapshot { snapshot, .. } => {
            assert_eq!(snapshot.history_version, history_version);
        }
        update => panic!("expected mode-only full snapshot, got {update:?}"),
    }
}

#[test]
fn visible_input_does_not_advance_history_version() {
    let mut driven = Driven::open(4, 2, 10);

    driven.feed(b"A\r\nB\r\n");
    let history_version = driven.pane.get_scrollback_version();
    let generation = driven.pane.get_generation();

    driven.feed(b"xy");

    assert_eq!(driven.pane.get_scrollback_version(), history_version);
    assert!(driven.pane.get_generation() > generation);
}

#[test]
fn full_history_rotation_advances_history_version() {
    let mut driven = Driven::open(4, 2, 2);

    driven.feed(b"A\r\nB\r\nC\r\n");
    let (_, full_total, full_version) = driven.scrollback(10);
    assert_eq!(full_total, 2);

    driven.feed(b"D\r\n");
    let (lines, rotated_total, rotated_version) = driven.scrollback(10);

    assert_eq!(rotated_total, full_total);
    assert_ne!(rotated_version, full_version);
    assert_eq!(lines.len(), 2);
    assert_eq!(lines[0].cells[0].character, "B");
    assert_eq!(lines[1].cells[0].character, "C");
}

#[test]
fn repeated_content_rotation_advances_history_version() {
    let mut driven = Driven::open(1, 2, 2);

    driven.feed(b"X\r\nX\r\nX\r\n");
    let (before_rows, before_total, before_version) = driven.scrollback(10);
    assert_eq!(before_total, 2);
    assert!(before_rows.iter().all(|row| row.cells[0].character == "X"));

    driven.feed(b"X\r\n");
    let (after_rows, after_total, after_version) = driven.scrollback(10);

    assert_eq!(after_total, before_total);
    assert!(after_rows.iter().all(|row| row.cells[0].character == "X"));
    assert_ne!(after_version, before_version);
}

#[test]
fn invalid_scrollback_parameters_are_rejected() {
    let driven = Driven::open(4, 2, 2);

    for direction in [2u32, 3, 7, u32::MAX] {
        assert!(
            matches!(
                driven.scrollback_checked(direction, 10),
                Err(ScrollbackError::InvalidDirection)
            ),
            "direction {direction} must be rejected"
        );
    }
    let cap = (LIMITS.max_cells / 4) as u32;
    assert!(matches!(
        driven.scrollback_checked(1, cap + 1),
        Err(ScrollbackError::CountTooLarge)
    ));
    assert!(matches!(
        driven.scrollback_checked(1, u32::MAX),
        Err(ScrollbackError::CountTooLarge)
    ));
    assert!(driven.scrollback_checked(0, 10).is_ok());
    assert!(driven.scrollback_checked(1, 10).is_ok());
    assert!(driven.scrollback_checked(1, 0).is_ok());
    assert!(driven.scrollback_checked(1, cap).is_ok());
}

#[test]
fn a_refused_scrollback_request_answers_nothing_but_the_version() {
    let mut driven = Driven::open(4, 2, 2);
    driven.feed(b"A\r\nB\r\nC\r\n");
    let (lines, total, version) =
        driven.pane.fetch_scrollback(&LIMITS, &driven.emulator, 0, 2, 10);
    assert!(lines.is_empty());
    assert_eq!(total, 0);
    assert_eq!(version, driven.pane.get_scrollback_version());
    assert!(check_scrollback_request(&LIMITS, 4, 1, 0).is_ok());
}

#[test]
fn clear_screen_all_rotates_full_history_and_advances_version() {
    let mut driven = Driven::open(4, 2, 2);

    driven.feed(b"A\r\nB\r\nC\r\n");
    let (before_rows, before_total, before_version) = driven.scrollback(10);
    assert_eq!(before_total, 2);
    assert_eq!(before_rows[0].cells[0].character, "A");

    driven.feed(b"\x1b[2J");
    let (after_rows, after_total, after_version) = driven.scrollback(10);

    assert_eq!(after_total, before_total, "history size must not change");
    assert_ne!(after_version, before_version, "rotated contents must bump version");
    assert_eq!(after_rows.len(), 2);
    assert_eq!(after_rows[0].cells[0].character, "B");
    assert_eq!(after_rows[1].cells[0].character, "C");
}

#[test]
fn clear_screen_saved_clears_history_and_advances_version() {
    let mut driven = Driven::open(4, 2, 2);

    driven.feed(b"A\r\nB\r\nC\r\n");
    let (_, before_total, before_version) = driven.scrollback(10);
    assert_eq!(before_total, 2);

    driven.feed(b"\x1b[3J");
    let (after_rows, after_total, after_version) = driven.scrollback(10);

    assert_eq!(after_total, 0, "saved history must be cleared");
    assert!(after_rows.is_empty());
    assert_ne!(after_version, before_version);
}

#[test]
fn oversized_grid_is_rejected_before_spawn_or_resize_mutation() {
    let text = |s: &str| s.to_string();
    assert!(Pane::new(&LIMITS, text("p"), text(""), text("/"), 4_097, 1, None, 100, 1).is_err());

    let mut driven = Driven::open(20, 5, 100);
    let generation = driven.pane.get_generation();
    assert!(driven.resize(4_097, 1).is_err());
    assert_eq!(driven.size(), (20, 5));
    assert_eq!(driven.pane.get_generation(), generation);
}

#[test]
fn min_fit_takes_the_smallest_viewport_per_axis() {
    let mut driven = Driven::open(120, 50, 100);

    driven.report("wide-client", 100, 20).unwrap();
    assert_eq!(driven.size(), (100, 20));

    driven.report("tall-client", 80, 40).unwrap();
    assert_eq!(driven.size(), (80, 20));
    assert_eq!(driven.pane.client_viewport_count(), 2);
    assert_eq!(driven.pane.min_fit_viewport(), Some(PaneViewport { cols: 80, rows: 20 }));
}

#[test]
fn larger_client_attaching_later_does_not_grow_the_pane() {
    let mut driven = Driven::open(120, 50, 100);

    driven.report("small-client", 80, 24).unwrap();
    driven.report("large-client", 200, 60).unwrap();

    assert_eq!(driven.size(), (80, 24));
}

#[test]
fn removing_the_smallest_client_grows_the_pane_back() {
    let mut driven = Driven::open(120, 50, 100);

    driven.report("large-client", 120, 50).unwrap();
    driven.report("small-client", 80, 24).unwrap();
    assert_eq!(driven.size(), (80, 24));

    driven.detach("small-client");

    assert_eq!(driven.size(), (120, 50));
    assert_eq!(driven.pane.client_viewport_count(), 1);
}

#[test]
fn min_fit_resize_bumps_generation_and_forces_full_snapshot() {
    let mut driven = Driven::open(120, 50, 100);

    driven.report("first-client", 100, 30).unwrap();
    let baseline = driven.pane.get_generation();
    assert!(baseline > 0, "the first viewport report resizes the pane");

    driven.report("second-client", 60, 20).unwrap();
    assert!(driven.pane.get_generation() > baseline);

    match driven.update_since(baseline).0 {
        GridUpdate::FullSnapshot { snapshot, .. } => {
            assert_eq!((snapshot.cols, snapshot.rows), (60, 20));
        }
        other => panic!("size change must force a full snapshot, got {other:?}"),
    }
}

#[test]
fn repeated_identical_viewport_report_does_not_publish_a_generation() {
    let mut driven = Driven::open(120, 50, 100);

    driven.report("client", 80, 24).unwrap();
    let generation = driven.pane.get_generation();

    driven.report("client", 80, 24).unwrap();
    driven.report("other-client", 100, 40).unwrap();

    assert_eq!(driven.pane.get_generation(), generation);
    assert_eq!(driven.size(), (80, 24));
}

#[test]
fn invalid_client_viewport_is_rejected_without_being_recorded() {
    let mut driven = Driven::open(120, 50, 100);
    driven.report("good-client", 80, 24).unwrap();
    let generation = driven.pane.get_generation();

    assert!(driven.report("zero-client", 0, 24).is_err());
    assert!(driven.report("huge-client", 4_097, 24).is_err());

    assert_eq!(driven.pane.client_viewport_count(), 1);
    assert_eq!(driven.size(), (80, 24));
    assert_eq!(driven.pane.get_generation(), generation);
}

#[test]
fn last_client_detaching_keeps_the_current_size() {
    let mut driven = Driven::open(120, 50, 100);
    driven.report("only-client", 80, 24).unwrap();

    driven.detach("only-client");

    assert_eq!(driven.pane.client_viewport_count(), 0);
    assert_eq!(driven.pane.min_fit_viewport(), None);
    assert_eq!(driven.size(), (80, 24));
}

#[test]
fn removing_an_unknown_client_viewport_is_a_no_op() {
    let mut driven = Driven::open(120, 50, 100);
    driven.report("client", 80, 24).unwrap();
    let generation = driven.pane.get_generation();

    driven.detach("never-attached");

    assert_eq!(driven.pane.client_viewport_count(), 1);
    assert_eq!(driven.pane.get_generation(), generation);
}

#[test]
fn one_command_records_each_marker_at_its_own_row_and_column() {
    let mut driven = Driven::open(20, 6, 100);

    driven.feed(
        b"\x1b]133;A\x07user@host$ \x1b]133;B\x07echo hi\r\n\
          \x1b]133;C\x07hi\r\n\x1b]133;D;0\x07",
    );

    let markers = driven.pane.shell_markers();
    assert_eq!(markers.len(), 4, "recorded {markers:?}");
    assert_eq!(
        markers.iter().map(|m| m.kind).collect::<Vec<_>>(),
        vec![
            ShellMarkerKind::PromptStart,
            ShellMarkerKind::CommandStart,
            ShellMarkerKind::OutputStart,
            ShellMarkerKind::CommandEnd,
        ]
    );
    assert_eq!(markers.iter().map(|m| m.sequence).collect::<Vec<_>>(), vec![1, 2, 3, 4]);
    let positions =
        markers.iter().map(|marker| (driven.locate(marker), marker.column)).collect::<Vec<_>>();
    assert_eq!(
        positions,
        vec![
            (ShellMarkerPosition::Viewport { line: 0 }, 0),
            (ShellMarkerPosition::Viewport { line: 0 }, 11),
            (ShellMarkerPosition::Viewport { line: 1 }, 0),
            (ShellMarkerPosition::Viewport { line: 2 }, 0),
        ]
    );
    assert_eq!(driven.pane.get_prompt_marker(), 4);
}

#[test]
fn command_end_marker_records_its_exit_status_when_present() {
    let mut driven = Driven::open(20, 6, 100);

    driven.feed(b"\x1b]133;D;1\x07\x1b]133;D\x07\x1b]133;D;0\x07");
    driven.feed(b"\x1b]133;D;not-a-number\x07\x1b]133;A\x07");

    assert_eq!(
        driven
            .pane
            .shell_markers()
            .iter()
            .map(|marker| (marker.kind, marker.exit_code))
            .collect::<Vec<_>>(),
        vec![
            (ShellMarkerKind::CommandEnd, Some(1)),
            (ShellMarkerKind::CommandEnd, None),
            (ShellMarkerKind::CommandEnd, Some(0)),
            (ShellMarkerKind::CommandEnd, None),
            (ShellMarkerKind::PromptStart, None),
        ]
    );
}

#[test]
fn marker_split_across_pty_batches_is_still_recorded_at_its_row() {
    let mut driven = Driven::open(20, 6, 100);

    driven.feed(b"ab\x1b]13");
    assert!(driven.pane.shell_markers().is_empty());
    driven.feed(b"3;D;7\x1b");
    assert!(driven.pane.shell_markers().is_empty(), "ST is still incomplete");
    driven.feed(b"\\cd");

    let marker = driven.marker_of(ShellMarkerKind::CommandEnd);
    assert_eq!(marker.exit_code, Some(7));
    assert_eq!(
        (driven.locate(&marker), marker.column),
        (ShellMarkerPosition::Viewport { line: 0 }, 2)
    );
    assert_eq!(driven.character(0), "a");
    assert_eq!(driven.character(2), "c");
}

#[test]
fn absolute_rows_convert_to_scrollback_indices_after_scrolling() {
    let mut driven = Driven::open(20, 3, 50);

    driven.feed(b"\x1b]133;A\x07one\r\n");
    driven.feed(b"\x1b]133;B\x07two\r\n");
    driven.feed(b"three\r\nfour\r\nfive\r\n");

    let prompt_start = driven.marker_of(ShellMarkerKind::PromptStart);
    let command_start = driven.marker_of(ShellMarkerKind::CommandStart);
    assert_eq!(
        (driven.locate(&prompt_start), driven.locate(&command_start)),
        (ShellMarkerPosition::History { index: 0 }, ShellMarkerPosition::History { index: 1 })
    );

    let (lines, total, _) = driven.scrollback(10);
    assert_eq!(total, 3);
    assert_eq!(lines[0].cells[0].character, "o", "index 0 is the A row");
    assert_eq!(lines[1].cells[0].character, "t", "index 1 is the B row");
}

#[test]
fn markers_become_unavailable_once_their_row_is_evicted() {
    let mut driven = Driven::open(20, 2, 2);

    driven.feed(b"\x1b]133;A\x07one\r\n");
    let prompt_start = driven.marker_of(ShellMarkerKind::PromptStart);
    assert_eq!(driven.locate(&prompt_start), ShellMarkerPosition::Viewport { line: 0 });
    let epoch = driven.pane.row_addressing_epoch();

    driven.feed(b"two\r\nthree\r\nfour\r\nfive\r\n");

    assert_eq!(driven.pane.row_addressing_epoch(), epoch);
    assert_eq!(driven.locate(&prompt_start), ShellMarkerPosition::Unavailable);
    assert_eq!(driven.pane.shell_markers().len(), 1);

    driven.feed(b"\x1b]133;B\x07six\r\n");
    let command_start = driven.marker_of(ShellMarkerKind::CommandStart);
    assert_eq!(driven.locate(&command_start), ShellMarkerPosition::Viewport { line: 0 });
    assert_eq!(driven.character(0), "s");

    driven.feed(b"seven\r\n");
    assert_eq!(driven.locate(&command_start), ShellMarkerPosition::History { index: 1 });
    let (lines, total, _) = driven.scrollback(10);
    assert_eq!(total, 2, "capacity is still honored");
    assert_eq!(lines[1].cells[0].character, "s");
}

#[test]
fn rows_below_the_eviction_floor_resolve_to_unavailable() {
    let mut driven = Driven::open(20, 4, 100);
    let epoch = driven.pane.row_addressing_epoch();
    driven.pane.state.viewport_top_absolute = 1_000;
    let marker = |absolute_row| ShellMarker {
        sequence: 1,
        kind: ShellMarkerKind::PromptStart,
        absolute_row,
        column: 0,
        exit_code: None,
        epoch,
    };

    assert_eq!(
        driven.pane.resolve_shell_marker(&marker(989), 10, 4),
        ShellMarkerPosition::Unavailable
    );
    assert_eq!(
        driven.pane.resolve_shell_marker(&marker(990), 10, 4),
        ShellMarkerPosition::History { index: 0 }
    );
    assert_eq!(
        driven.pane.resolve_shell_marker(&marker(999), 10, 4),
        ShellMarkerPosition::History { index: 9 }
    );
    assert_eq!(
        driven.pane.resolve_shell_marker(&marker(1_003), 10, 4),
        ShellMarkerPosition::Viewport { line: 3 }
    );
    assert_eq!(
        driven.pane.resolve_shell_marker(&marker(1_004), 10, 4),
        ShellMarkerPosition::Unavailable
    );
}

#[test]
fn resize_retires_recorded_rows_instead_of_reflowing_them() {
    let mut driven = Driven::open(20, 4, 100);

    driven.feed(b"\x1b]133;A\x07prompt\r\nsecond\r\n");
    let prompt_start = driven.marker_of(ShellMarkerKind::PromptStart);
    assert_eq!(driven.locate(&prompt_start), ShellMarkerPosition::Viewport { line: 0 });

    driven.resize(10, 4).unwrap();

    assert_eq!(driven.locate(&prompt_start), ShellMarkerPosition::Unavailable);

    driven.feed(b"\x1b]133;B\x07after\r\n");
    let command_start = driven.marker_of(ShellMarkerKind::CommandStart);
    assert_eq!(driven.locate(&command_start), ShellMarkerPosition::Viewport { line: 2 });
}

#[test]
fn alternate_screen_switch_retires_recorded_rows() {
    let mut driven = Driven::open(20, 4, 100);

    driven.feed(b"\x1b]133;A\x07prompt\r\n");
    let prompt_start = driven.marker_of(ShellMarkerKind::PromptStart);
    let epoch = driven.pane.row_addressing_epoch();

    driven.feed(b"\x1b[?1049h");

    assert_ne!(driven.pane.row_addressing_epoch(), epoch);
    assert_eq!(driven.locate(&prompt_start), ShellMarkerPosition::Unavailable);
}

#[test]
fn osc7_cwd_survives_the_shared_scanner() {
    let mut driven = Driven::open(20, 4, 100);

    driven.feed(b"\x1b]7;file://localhost/tmp/z3rm%20osc7\x07");
    assert_eq!(driven.pane.get_cwd(), "/tmp/z3rm osc7");

    driven.feed(b"\x1b]7;file://localhost/tmp/split");
    assert_eq!(driven.pane.get_cwd(), "/tmp/z3rm osc7", "no ST yet");
    driven.feed(b"-path\x1b\\");
    assert_eq!(driven.pane.get_cwd(), "/tmp/split-path");

    driven.feed(b"\x1b]0;133;A window title\x07\x1b]133;A\x07");
    assert_eq!(
        driven.pane.shell_markers().iter().map(|marker| marker.kind).collect::<Vec<_>>(),
        vec![ShellMarkerKind::PromptStart]
    );
    assert_eq!(driven.pane.get_cwd(), "/tmp/split-path");
}

#[test]
fn recorded_markers_are_capped() {
    let mut driven = Driven::open(20, 4, 100_000);

    let mut batch = Vec::new();
    for _ in 0..MAX_RECORDED_SHELL_MARKERS + 32 {
        batch.extend_from_slice(b"\x1b]133;A\x07");
    }
    driven.feed(&batch);

    let markers = driven.pane.shell_markers();
    assert_eq!(markers.len(), MAX_RECORDED_SHELL_MARKERS);
    assert_eq!(markers.iter().map(|marker| marker.sequence).min(), Some(33));
    assert_eq!(driven.pane.get_prompt_marker() as usize, MAX_RECORDED_SHELL_MARKERS + 32);
}

#[test]
fn markers_stay_addressable_after_scrollback_fills() {
    let mut driven = Driven::open(20, 4, 10);
    for index in 0..40 {
        driven.feed(format!("fill{index}\r\n").as_bytes());
    }
    let (_, total, _) = driven.scrollback(1);
    assert_eq!(total, 10, "scrollback is at capacity");
    let epoch = driven.pane.row_addressing_epoch();

    driven.feed(b"\x1b]133;A\x07$ \x1b]133;B\x07ls\r\n\x1b]133;C\x07");
    let prompt_start = driven.marker_of(ShellMarkerKind::PromptStart);
    let output_start = driven.marker_of(ShellMarkerKind::OutputStart);
    assert_eq!(driven.locate(&output_start), ShellMarkerPosition::Viewport { line: 3 });

    driven.feed(b"a\r\nb\r\nc\r\n");
    driven.feed(b"\x1b]133;D;0\x07");

    assert_eq!(driven.pane.row_addressing_epoch(), epoch);
    assert_eq!(driven.locate(&output_start), ShellMarkerPosition::Viewport { line: 0 });
    assert_eq!(driven.character(0), "a");

    assert_eq!(driven.locate(&prompt_start), ShellMarkerPosition::History { index: 9 });
    let (lines, _, _) = driven.scrollback(10);
    assert_eq!(lines[9].cells[0].character, "$", "index 9 is the row the A marker named");
    assert_eq!(driven.marker_of(ShellMarkerKind::CommandEnd).exit_code, Some(0));
}

#[test]
fn disabled_scrollback_reports_no_row_rather_than_a_stale_one() {
    let mut driven = Driven::open(20, 4, 0);

    driven.feed(b"\x1b]133;A\x07zero\r\n");
    let prompt_start = driven.marker_of(ShellMarkerKind::PromptStart);
    assert_eq!(driven.locate(&prompt_start), ShellMarkerPosition::Viewport { line: 0 });

    driven.feed(b"x\r\ny\r\nz\r\nw\r\n");

    assert_eq!(driven.locate(&prompt_start), ShellMarkerPosition::Unavailable);
    assert_eq!(driven.character(0), "y");
    let (_, total, _) = driven.scrollback(10);
    assert_eq!(total, 0, "no scrollback is retained");
}

#[test]
fn a_batch_longer_than_the_headroom_stays_counted() {
    let mut driven = Driven::open(20, 4, 64);

    driven.feed(b"\x1b]133;A\x07anchor\r\n");
    let prompt_start = driven.marker_of(ShellMarkerKind::PromptStart);
    let epoch = driven.pane.row_addressing_epoch();

    let mut burst = Vec::new();
    while burst.len() < 8192 {
        burst.extend_from_slice(b"x\r\n");
    }
    let appended = burst.len() / 3;
    assert!(appended > ROW_ADDRESSING_HEADROOM);
    driven.feed(&burst);

    assert_eq!(driven.pane.row_addressing_epoch(), epoch);
    assert_eq!(driven.locate(&prompt_start), ShellMarkerPosition::Unavailable);

    driven.feed(b"\x1b]133;B\x07tail\r\n");
    let command_start = driven.marker_of(ShellMarkerKind::CommandStart);
    assert_eq!(driven.locate(&command_start), ShellMarkerPosition::Viewport { line: 2 });
    assert_eq!(driven.character(2 * 20), "t");

    driven.feed(b"p\r\nq\r\nr\r\n");
    assert_eq!(driven.locate(&command_start), ShellMarkerPosition::History { index: 63 });
    let (lines, total, _) = driven.scrollback(64);
    assert_eq!(total, 64, "capacity is honored after the burst");
    assert_eq!(lines[63].cells[0].character, "t");
}

#[test]
fn a_scroll_burst_past_the_headroom_retires_the_numbering() {
    let mut driven = Driven::open(20, 60, 10);

    driven.feed(b"\x1b]133;A\x07anchor\r\n");
    let prompt_start = driven.marker_of(ShellMarkerKind::PromptStart);
    let epoch = driven.pane.row_addressing_epoch();

    let mut burst = String::new();
    while burst.len() < ROW_ADDRESSING_HEADROOM {
        burst.push_str("\x1b[60S");
    }
    driven.feed(burst.as_bytes());

    assert_ne!(driven.pane.row_addressing_epoch(), epoch);
    assert_eq!(driven.locate(&prompt_start), ShellMarkerPosition::Unavailable);
    let (_, total, _) = driven.scrollback(64);
    assert_eq!(total, 10, "capacity is honored even when the numbering retires");
}

#[test]
fn split_escape_sequence_is_parsed_across_pty_batches() {
    let mut driven = Driven::open(4, 2, 100);

    driven.feed(b"\x1b[?");
    assert!(!driven.has_mode(APP_CURSOR));
    driven.feed(b"1h");
    assert!(driven.has_mode(APP_CURSOR));
}

#[test]
fn a_diff_draws_what_changed_since_a_generation() {
    let mut driven = Driven::open(8, 4, 100);
    driven.feed(b"one\r\n");
    let seen = driven.pane.get_generation();
    driven.feed(b"\x1b7two\x1b8");
    match driven.update_since(seen).0 {
        GridUpdate::Diff { from_generation, to_generation, diff } => {
            assert_eq!((from_generation, to_generation), (seen, seen + 1));
            let row = diff.rows.iter().find(|row| row.row == 1).unwrap();
            assert_eq!(row.cells[0].character, "t");
        }
        update => panic!("expected a diff, got {update:?}"),
    }
    assert!(matches!(driven.update_since(seen + 1).0, GridUpdate::NoChange(g) if g == seen + 1));
}

fn image(image_id: u32) -> PaneMedia {
    PaneMedia {
        pane_id: String::new(),
        sequence: 0,
        image_id,
        row: 0,
        column: 0,
        payload: b"Hello".to_vec(),
    }
}

fn completed(image_id: u32, grid_offset: usize, placement_from_pending: bool) -> ScanEvent {
    ScanEvent::Media { index: 0, image_id, grid_offset, action: Some(b'T'), placement_from_pending }
}

fn delivered(driven: &mut Driven) -> Vec<PendingTypedEvent> {
    let mut events = Vec::new();
    if driven.pane.pending_typed_events.begin_drain() {
        loop {
            match driven.pane.pending_typed_events.drain_step(true, true) {
                DrainStep::Deliver(event) => events.push(event),
                DrainStep::Retry => {}
                DrainStep::Done => break,
            }
        }
    }
    events
}

#[test]
fn kitty_display_captures_cursor_at_control_offset() {
    let mut driven = Driven::open(20, 6, 100);
    let mut media = vec![image(8)];
    driven.feed_with(b"\x1b[3;5Htail", &vec![completed(8, 6, false)], &mut media, &Vec::new());
    let events = delivered(&mut driven);
    assert!(matches!(&events[..], [PendingTypedEvent::Media(media)]
        if (media.row, media.column) == (2, 4)));
}

#[test]
fn kitty_continuation_preserves_initial_display_cursor_across_feeds() {
    let mut driven = Driven::open(20, 6, 100);
    let placement = ScanEvent::Placement { image_id: 13, grid_offset: 18, action: Some(b'T') };
    driven.feed_with(
        b"abcdefghijkl\x1b[5;7Hafter",
        &vec![placement],
        &mut Vec::new(),
        &Vec::new(),
    );
    let mut media = vec![image(13)];
    driven.feed_with(b"", &vec![completed(13, 0, true)], &mut media, &Vec::new());
    let events = delivered(&mut driven);
    assert!(matches!(&events[..], [PendingTypedEvent::Media(media)]
        if (media.row, media.column) == (4, 6)));
}

#[test]
fn media_and_actions_share_ordered_pane_sequence_across_batches() {
    let mut driven = Driven::open(20, 6, 100);
    let mut media = vec![image(9)];
    driven.feed_with(b"leftright", &vec![completed(9, 4, false)], &mut media, &Vec::new());
    let action = PaneAction { pane_id: String::new(), sequence: 0, payload: Vec::new() };
    driven.feed_with(
        b"after",
        &vec![ScanEvent::Action { index: 0, grid_offset: 0 }],
        &mut Vec::new(),
        &vec![action],
    );
    let events: Vec<(u64, &str)> = delivered(&mut driven)
        .iter()
        .map(|event| match event {
            PendingTypedEvent::Media(media) => (media.sequence, "media"),
            PendingTypedEvent::Action(action) => (action.sequence, "action"),
        })
        .collect();
    assert_eq!(events, vec![(1, "media"), (2, "action")]);
}

#[test]
fn media_advances_the_generation() {
    let mut driven = Driven::open(20, 6, 100);
    let baseline = driven.pane.get_generation();
    let mut media = vec![image(10)];
    driven.feed_with(b"", &vec![completed(10, 0, false)], &mut media, &Vec::new());
    assert_eq!(driven.pane.get_generation(), baseline + 1);
    place_media(&mut media, &vec![(0, 3, 4), (7, 1, 1)]);
    assert_eq!((media[0].row, media[0].column), (3, 4));
    assert!(!has_media(&vec![ScanEvent::Action { index: 0, grid_offset: 0 }]));
}

#[test]
fn reports_of_the_emulator_become_effects_in_order() {
    let mut driven = Driven::open(20, 4, 100);
    let outcome = driven.feed(b"\x1b]0;build\x07\x07\x1b[6n\x1b]52;c;SGVsbG8=\x07");
    assert_eq!(outcome.output_sequence, 1);
    assert!(outcome.wake);
    assert!(matches!(&outcome.effects[..], [
        PaneEffect::TitleChanged(title),
        PaneEffect::Dirty,
        PaneEffect::Bell,
        PaneEffect::WritePty(answer),
        PaneEffect::StoreClipboard(text),
    ] if title == "build" && answer == "\x1b[1;1R" && text == "Hello"));
    assert_eq!(driven.pane.get_title(), "build");
    assert!(driven.feed(b"x").effects.is_empty());
}

#[test]
fn directories_that_a_batch_announces_are_followed_in_order() {
    let mut driven = Driven::open(20, 4, 100);
    let outcome = driven.feed(
        b"\x1b]7;file://h/a\x07\x1b]7;file://h/a\x07\x1b]7;file://h/b\x07\x1b]7;file://\x07",
    );
    assert_eq!(outcome.directories, vec!["/a", "/b"]);
    assert_eq!(driven.pane.get_cwd(), "/b");
}

#[test]
fn a_synchronized_update_is_published_when_it_ends() {
    let mut driven = Driven::open(20, 4, 100);
    driven.feed(b"first");
    let generation = driven.pane.get_generation();
    let none = Vec::new();
    let outcome = driven.feed_in(
        b"\x1b[?2026h\r\nsecond",
        &none,
        &mut Vec::new(),
        &Vec::new(),
        true,
    );
    assert!(!outcome.wake);
    assert!(driven.tracker.is_in_sync());
    assert_eq!(driven.pane.get_generation(), generation);
    let outcome = driven.feed_in(
        b"\r\nthird\x1b[?2026l",
        &none,
        &mut Vec::new(),
        &Vec::new(),
        false,
    );
    assert!(outcome.wake, "the end of an update insists");
    assert!(!driven.tracker.is_in_sync());
    assert_eq!(driven.pane.get_generation(), generation + 1);
    assert_eq!(driven.character(20), "s");
    let outcome = driven.feed_in(b"!", &none, &mut Vec::new(), &Vec::new(), false);
    assert!(!outcome.wake);
    assert!(driven.state.window.pending_notify);
}

#[test]
fn another_capacity_retires_recorded_rows() {
    let mut driven = Driven::open(20, 2, 100);
    driven.feed(b"\x1b]133;A\x07a\r\nb\r\nc\r\nd\r\n");
    assert_eq!(driven.emulator.history_rows(), 3);
    assert!(!driven.pane.set_scrollback_capacity(&mut driven.emulator, 100));
    let version = driven.pane.get_scrollback_version();
    assert!(driven.pane.set_scrollback_capacity(&mut driven.emulator, 2));
    assert_eq!(driven.emulator.history_rows(), 2);
    assert_eq!(driven.pane.get_scrollback_version(), version + 1);
    let marker = driven.marker_of(ShellMarkerKind::PromptStart);
    assert_eq!(driven.locate(&marker), ShellMarkerPosition::Unavailable);
    assert_eq!(driven.scrollback(10).0[0].cells[0].character, "b");
}

#[test]
fn the_whole_batch_is_fed_and_each_marker_is_read_at_its_offset() {
    let mut emulator = Emulator::new(10, 3, 5);
    let mut addressing = RowAddressing::start(0, 0, 5, true);
    let bytes = b"ab\r\ncd\r\nef\r\ngh";
    addressing.advance_to(&mut emulator, bytes, 6);
    assert_eq!(addressing.consumed, 6);
    assert_eq!(emulator.snapshot(0).cursor.row, 1);
    addressing.advance_to(&mut emulator, bytes, 1_000);
    addressing.finish(&mut emulator);
    assert_eq!(addressing.consumed, bytes.len());
    assert_eq!((addressing.viewport_top, addressing.history_size), (1, 1));
    assert_eq!(emulator.whole_history()[0].cells[1].character, "b");
    assert_eq!(emulator.snapshot(0).cells[20].character, "g");
}

#[test]
fn cells_show_their_style_and_colours() {
    let mut driven = Driven::open(20, 2, 10);
    driven.feed(b"\x1b[1;3;9;38;2;1;2;3;48;5;200mA\x1b[0;4;2;7mB\x1b[?2004h");
    let cells = driven.snapshot().cells;
    assert!(cells[0].style.bold && cells[0].style.italic && cells[0].style.strikethrough);
    assert!(!cells[0].style.underline && !cells[0].style.dim && !cells[0].style.reverse);
    assert_eq!((cells[0].foreground, cells[0].background), (0x01_02_03, 0x0200_0000 + 200));
    assert!(cells[1].style.underline && cells[1].style.dim && cells[1].style.reverse);
    assert!(driven.has_mode(BRACKETED_PASTE));
    assert_eq!(color_number(CellColor::Named(256)), 0x0100_0100);
    let raw = RawCell {
        character: 'x',
        flags: 0x0008,
        foreground: CellColor::Indexed(1),
        background: CellColor::Direct { red: 255, green: 0, blue: 16 },
    };
    let cell = cell_of(raw);
    assert_eq!((cell.character.as_str(), cell.background), ("x", 0xff_00_10));
    assert!(cell.style.underline);
}

#[test]
fn what_is_known_of_a_batch_follows_its_updates() {
    let mut tracker = SyncTracker::new();
    let known = |in_sync, sync_ended| BatchSituation {
        in_sync,
        sync_ended,
        media_hook: false,
        action_hook: true,
    };
    assert_eq!(batch_situation(&mut tracker, b"plain", false, true), known(false, false));
    assert_eq!(batch_situation(&mut tracker, b"\x1b[?20", false, true), known(false, false));
    assert_eq!(batch_situation(&mut tracker, b"26h", false, true), known(true, false));
    assert_eq!(
        batch_situation(&mut tracker, b"x\x1b[?2026l\x1b[?2026h", false, true),
        known(true, true)
    );
    assert_eq!(batch_situation(&mut tracker, b"\x1b[?2026l", false, true), known(false, true));
}

#[test]
fn rows_of_history_are_read_from_a_line_in_either_direction() {
    let mut driven = Driven::open(4, 2, 10);
    driven.feed(b"a\r\nb\r\nc\r\nd\r\ne\r\nf\r\n");
    let read = |from_line, direction, count| {
        let (rows, total) = driven.emulator.scrollback_window(from_line, direction, count);
        let texts: String = rows.iter().map(|row| row.cells[0].character.as_str()).collect();
        let numbers: Vec<u32> = rows.iter().map(|row| row.row).collect();
        assert_eq!(total, 5);
        (texts, numbers)
    };
    assert_eq!(read(0, 1, 2), ("ab".to_string(), vec![0, 1]));
    assert_eq!(read(3, 1, 10), ("de".to_string(), vec![3, 4]));
    assert_eq!(read(3, 0, 2), ("cd".to_string(), vec![2, 3]));
    assert_eq!(read(1, 0, 10), ("ab".to_string(), vec![0, 1]));
    assert_eq!(read(9, 0, 2), ("de".to_string(), vec![3, 4]));
    assert_eq!(read(9, 1, 2), (String::new(), vec![]));
    assert_eq!(read(u32::MAX, 1, u32::MAX), (String::new(), vec![]));
    let (rows, total, version) =
        driven.pane.fetch_scrollback_checked(&LIMITS, &driven.emulator, 2, 0, 2).unwrap();
    assert_eq!(rows[0].cells[0].character, "b");
    assert_eq!((rows.len(), total), (2, 5));
    assert_eq!(version, driven.pane.get_scrollback_version());
}

#[test]
fn history_is_searched_from_a_line_in_either_direction() {
    let mut driven = Driven::open(4, 2, 10);
    driven.feed(b"a1\r\nb2\r\na3\r\nb4\r\na5\r\nb6\r\n");
    let search = |regex, from_line, direction, max_results| {
        let (found, version) = driven.pane.search_scrollback(
            &driven.emulator,
            regex,
            from_line,
            direction,
            max_results,
        );
        assert_eq!(version, driven.pane.get_scrollback_version());
        found.iter().map(|(line, row)| (*line, row.cells[1].character.clone())).collect::<Vec<_>>()
    };
    let hit = |line: u32, text: &str| (line, text.to_string());
    assert_eq!(search("^a", 1, 1, 10), vec![hit(2, "3"), hit(4, "5")]);
    assert_eq!(search("^a", 3, 0, 10), vec![hit(2, "3"), hit(0, "1")]);
    assert_eq!(search("^a", 3, 0, 1), vec![hit(2, "3")]);
    assert_eq!(search("[0-9]", 99, 0, 2), vec![hit(4, "5"), hit(3, "4")]);
    assert!(search("[0-9]", 99, 1, 2).is_empty());
    assert!(search("b6", 0, 1, 10).is_empty(), "the screen is no history");
    assert!(search("(", 0, 1, 10).is_empty());
}

#[test]
fn a_single_column_shows_narrow_characters() {
    let mut driven = Driven::open(1, 3, 10);
    assert!(holds_no_wide("e\u{e9}".as_bytes()));
    assert!(!holds_no_wide("\u{754c}".as_bytes()));
    driven.feed("\u{e9}\r\n\u{3b1}".as_bytes());
    assert_eq!(driven.character(0), "\u{e9}");
    assert_eq!(driven.character(1), "\u{3b1}");
}

#[test]
fn a_pane_with_the_longest_history_is_resized() {
    let mut driven = Driven::open(4, 2, MAX_SCROLLBACK_LINES);
    driven.feed(b"a\r\nb\r\nc\r\n");
    driven.resize(8, 4).unwrap();
    assert_eq!(driven.size(), (8, 4));
    assert_eq!(driven.emulator.readable_rows(), 0);
    assert_eq!(driven.character(0), "a");
    driven.resize(8, 2).unwrap();
    assert_eq!(driven.emulator.readable_rows(), 2);
    assert!(MAX_HISTORY_LIMIT > MAX_SCROLLBACK_LINES);
}

#[test]
fn a_grid_can_be_carried_up_to_its_limits() {
    assert_eq!(GridLimits::default(), LIMITS);
    assert_eq!(Pane::check_resize(&LIMITS, 4096, 1024), Ok((1024, 4096)));
    assert_eq!(Pane::check_resize(&LIMITS, 4096, 1025), Err(PaneSizeError::Grid));
    assert_eq!(Pane::check_resize(&LIMITS, 4097, 1), Err(PaneSizeError::Grid));
    assert_eq!(Pane::check_resize(&LIMITS, 1, 4097), Err(PaneSizeError::Grid));
}
