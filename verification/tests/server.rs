//! The server's sessions, layouts, panes and grids.

use z3rm::clock::millis_of;
use z3rm::cwd::{directory_of, percent_decode};
use z3rm::emulator::Emulator;
use z3rm::grid_sync::{
    build_empty_snapshot, Cell, CellStyle, GridDiff, GridDiffRing, GridUpdate, RowChange,
    ScrollbackBuffer, ScrollbackVersion,
};
use z3rm::layout::{
    compute_checksum, LayoutError, LayoutNode, LayoutTree, Removal, SplitDirection, HALF,
};
use z3rm::marker_walk::{merge_boundaries, Boundary, ScanEvent};
use z3rm::osc::{parse_osc133_payload, OscEvent, OscScanner, ShellMarkerKind, MAX_OSC_PAYLOAD};
use z3rm::pane::{
    command_text, flush_pending_notify, force_flush_after_bsu_timeout, initial_history_version,
    pane_environment, poll_timeout, read_loop_action, sorted_rows, BatchReading, EmulatorEvent,
    GridLimits, HistoryMutationObserver, Pane, PaneEffect, PaneSizeError, ReadAction, ReadEvent,
    ShellCommand, SyncWindow, MAX_GRID_CELLS, MAX_GRID_COLS, MAX_GRID_ROWS,
};
use z3rm::persistence::{recover_sessions, snapshot_row};
use z3rm::row_addressing::RowAddressing;
use z3rm::server_paths::{
    default_extensions_dir, default_socket_path, find_local_server_binary, join_path,
    server_candidates,
};
use z3rm::session::{AttachMode, Session};
use z3rm::sync_update::SyncTracker;
use z3rm::text_map::TextMap;
use z3rm::typed_events::{DrainStep, PaneAction, PaneMedia, PendingTypedEvent, PendingTypedEvents};

const LIMITS: GridLimits = GridLimits {
    max_cols: MAX_GRID_COLS,
    max_rows: MAX_GRID_ROWS,
    max_cells: MAX_GRID_CELLS,
};

fn open_pane() -> Pane {
    Pane::new(
        &LIMITS,
        "pane-1".to_string(),
        "session".to_string(),
        "/home/user".to_string(),
        80,
        24,
        None,
        100,
        1,
    )
    .unwrap()
}

fn no_rows() -> GridDiff {
    GridDiff { rows: vec![] }
}

fn cell(text: &str) -> Cell {
    Cell {
        character: text.to_string(),
        style: CellStyle::default(),
        foreground: 0,
        background: 0,
    }
}

fn row(row: u32, text: &str) -> RowChange {
    RowChange { row, cells: text.chars().map(|c| cell(&c.to_string())).collect() }
}

#[test]
fn test_diff_ring_push_and_overflow() {
    let mut ring = GridDiffRing::new(4);

    for i in 0..4 {
        ring.push(i, GridDiff { rows: vec![] });
    }
    assert_eq!(ring.len(), 4);

    ring.push(4, GridDiff { rows: vec![] });
    assert_eq!(ring.len(), 4);
}

#[test]
fn test_diff_ring_empty() {
    let ring = GridDiffRing::new(4);
    assert!(ring.is_empty());
    assert_eq!(ring.len(), 0);
}

#[test]
fn test_diff_ring_preserves_order() {
    let mut ring = GridDiffRing::new(64);
    ring.push(10, GridDiff { rows: vec![] });
    ring.push(20, GridDiff { rows: vec![] });
    ring.push(30, GridDiff { rows: vec![] });
    assert_eq!(ring.len(), 3);
}

#[test]
fn merged_diffs_draw_the_latest_of_each_row() {
    let mut ring = GridDiffRing::new(8);
    ring.push(1, GridDiff { rows: vec![row(0, "a")] });
    ring.push(2, GridDiff { rows: vec![row(1, "b")] });
    ring.push(3, GridDiff { rows: vec![row(0, "c")] });
    match ring.fetch_update(1, 3, || build_empty_snapshot(1, 1)) {
        GridUpdate::Diff { diff, .. } => {
            let drawn: Vec<(u32, &str)> = diff
                .rows
                .iter()
                .map(|row| (row.row, row.cells[0].character.as_str()))
                .collect();
            assert!(drawn.contains(&(1, "b")));
            assert_eq!(drawn.last(), Some(&(0, "c")));
        }
        update => panic!("expected a diff, got {update:?}"),
    }
    ring.push_requiring_full_snapshot(4, no_rows());
    assert!(matches!(
        ring.fetch_update(3, 4, || build_empty_snapshot(2, 2)),
        GridUpdate::FullSnapshot { to_generation: 4, snapshot } if snapshot.cells.len() == 4
    ));
}

#[test]
fn a_scrollback_version_survives_its_encoding() {
    let mut version = ScrollbackVersion::first_at(1_700_000_000);
    version.bump_at(1_700_000_001);
    let read = ScrollbackVersion::decode(version.encode());
    assert_eq!(read.encode(), version.encode());
    assert_eq!(read.counter, version.counter);
    let now = ScrollbackVersion::new();
    assert_eq!(now.counter, ScrollbackVersion::first_at(0).counter);
}

#[test]
fn a_scrollback_buffer_drops_its_oldest_rows() {
    let mut buffer = ScrollbackBuffer::new(2);
    for (i, text) in ["one", "two", "three"].iter().enumerate() {
        buffer.push_row(row(i as u32, text));
    }
    assert_eq!(buffer.total_lines(), 2);
    assert!(buffer.is_full());
    let lines = buffer.fetch_lines(0, 5, 1);
    assert_eq!(lines[0].cells[0].character, "t");
    let hits = buffer.search("th", 0, 1, 10);
    assert_eq!(hits.len(), 1);
    assert!(buffer.search("(", 0, 1, 10).is_empty());
    buffer.clear();
    assert_eq!(buffer.total_lines(), 0);
}

#[test]
fn test_layout_split() {
    let mut tree = LayoutTree::with_pane("node-1".to_string(), "pane-1".to_string());
    tree.split("pane-1", "pane-2".to_string(), SplitDirection::LeftRight).expect("split failed");

    match &tree.root {
        LayoutNode::Split { direction, children, ratios, .. } => {
            assert_eq!(*direction, SplitDirection::LeftRight);
            assert_eq!(children.len(), 2);
            assert_eq!(ratios.len(), 2);
            assert!((f32::from_bits(ratios[0]) - 0.5).abs() < 1e-6);
            assert!((f32::from_bits(ratios[1]) - 0.5).abs() < 1e-6);
        }
        _ => panic!("expected Split node after split"),
    }
}

#[test]
fn test_layout_remove_pane() {
    let mut tree = LayoutTree::with_pane("node-1".to_string(), "pane-1".to_string());
    tree.split("pane-1", "pane-2".to_string(), SplitDirection::TopBottom).expect("split failed");

    assert_eq!(tree.remove_pane("pane-2"), Removal::Flattened);

    match &tree.root {
        LayoutNode::Pane { pane_id, .. } => {
            assert_eq!(pane_id, "pane-1");
        }
        _ => panic!("expected flattened Pane node after removal"),
    }
}

#[test]
fn removing_a_pane_from_a_nested_split_loses_no_other_pane() {
    let mut tree = LayoutTree::with_pane("n".to_string(), "p1".to_string());
    tree.split("p1", "p2".to_string(), SplitDirection::LeftRight).unwrap();
    tree.split("p2", "p3".to_string(), SplitDirection::TopBottom).unwrap();
    assert_eq!(tree.remove_pane("p3"), Removal::Flattened);
    assert_eq!(tree.pane_ids(), ["p1", "p2"]);
    assert_eq!(tree.remove_pane("p1"), Removal::Flattened);
    assert_eq!(tree.pane_ids(), ["p2"]);

    let leaf = |id: &str| LayoutNode::Pane { id: format!("n-{id}"), pane_id: id.to_string() };
    let inner = LayoutNode::Split {
        id: "inner".to_string(),
        direction: SplitDirection::TopBottom,
        children: vec![leaf("a"), leaf("b"), leaf("c")],
        ratios: vec![HALF, HALF, HALF],
    };
    let mut tree = LayoutTree::with_pane("n".to_string(), "p".to_string());
    tree.root = LayoutNode::Split {
        id: "outer".to_string(),
        direction: SplitDirection::LeftRight,
        children: vec![leaf("left"), inner],
        ratios: vec![HALF, HALF],
    };
    assert_eq!(tree.remove_pane("b"), Removal::Shrunk { path: vec![1] });
    assert_eq!(tree.pane_ids(), ["left", "a", "c"]);
    assert_eq!(tree.ratio_lists()[1].len(), 2);
}

#[test]
fn a_split_puts_the_new_pane_right_behind_the_old_one() {
    let mut tree = LayoutTree::with_pane("n".to_string(), "p1".to_string());
    tree.split("p1", "p2".to_string(), SplitDirection::LeftRight).unwrap();
    tree.split("p1", "p3".to_string(), SplitDirection::TopBottom).unwrap();
    assert_eq!(tree.pane_ids(), ["p1", "p3", "p2"]);
}

#[test]
fn test_layout_resize_pane() {
    let mut tree = LayoutTree::with_pane("node-1".to_string(), "pane-1".to_string());
    tree.split("pane-1", "pane-2".to_string(), SplitDirection::LeftRight).expect("split failed");

    let target = tree.resize_pane("pane-2", SplitDirection::LeftRight).expect("resize failed");
    assert!(target.path.is_empty());

    match &mut tree.root {
        LayoutNode::Split { ratios, .. } => {
            let neighbour = target.neighbour.unwrap();
            ratios[target.index] = (f32::from_bits(ratios[target.index]) + 0.1).to_bits();
            ratios[neighbour] = (f32::from_bits(ratios[neighbour]) - 0.1).to_bits();
            assert!(f32::from_bits(ratios[1]) > 0.5);
            assert!(f32::from_bits(ratios[0]) < 0.5);
        }
        _ => panic!("expected Split node"),
    }
}

#[test]
fn test_layout_serialize() {
    let tree = LayoutTree::with_pane("root".to_string(), "pane-1".to_string());
    let serialized = tree.serialize(&Vec::new());

    assert!(serialized.contains("P:root:pane-1"));
    let lines: Vec<&str> = serialized.lines().collect();
    assert!(lines.len() >= 2);
    let checksum: u32 = lines.last().unwrap().parse().expect("checksum should be a number");
    assert_eq!(checksum, compute_checksum("P:root:pane-1\n"));
    assert_eq!(compute_checksum("ab"), 97 * 16777619 + 98);
}

#[test]
fn test_layout_pane_ids() {
    let mut tree = LayoutTree::with_pane("n1".to_string(), "p1".to_string());
    tree.split("p1", "p2".to_string(), SplitDirection::LeftRight).expect("split failed");
    tree.split("p1", "p3".to_string(), SplitDirection::TopBottom).expect("split failed");

    let ids = tree.pane_ids();
    assert!(ids.contains(&"p1".to_string()));
    assert!(ids.contains(&"p2".to_string()));
    assert!(ids.contains(&"p3".to_string()));
}

#[test]
fn a_pane_that_is_not_there_cannot_be_split() {
    let mut tree = LayoutTree::with_pane("n".to_string(), "p".to_string());
    let refused = tree.split("q", "r".to_string(), SplitDirection::LeftRight);
    assert!(matches!(refused, Err(LayoutError::PaneNotFound(id)) if id == "q"));
    assert_eq!(tree.pane_ids(), vec!["p"]);
    assert_eq!(tree.remove_pane("q"), Removal::Unchanged);
    assert!(tree.resize_pane("p", SplitDirection::LeftRight).is_none());
    assert_eq!(f32::from_bits(HALF), 0.5);
}

#[test]
fn test_session_create() {
    let session =
        Session::new("sess-1".to_string(), "test".to_string(), "/home/user".to_string());
    assert_eq!(session.id, "sess-1");
    assert_eq!(session.name, "test");
    assert_eq!(session.cwd, "/home/user");
    assert!(session.is_empty());
}

#[test]
fn test_session_attach_detach() {
    let mut session =
        Session::new("sess-1".to_string(), "test".to_string(), "/home/user".to_string());

    session.add_attached_client("client-1".to_string(), AttachMode::Shared);
    assert_eq!(session.attached_client_count(), 1);

    session.add_attached_client("client-2".to_string(), AttachMode::ReadOnly);
    assert_eq!(session.attached_client_count(), 2);

    session.remove_attached_client("client-1");
    assert_eq!(session.attached_client_count(), 1);
}

#[test]
fn test_session_focused_pane() {
    let mut session =
        Session::new("sess-1".to_string(), "test".to_string(), "/home/user".to_string());

    assert!(session.get_focused_pane().is_none());

    session.set_focused_pane("pane-1".to_string());
    assert_eq!(session.get_focused_pane(), Some("pane-1"));
}

#[test]
fn test_session_add_tab() {
    let mut session =
        Session::new("sess-1".to_string(), "test".to_string(), "/home/user".to_string());

    session.add_tab("tab-1".to_string(), "Terminal".to_string());
    assert!(session.tabs.contains_key("tab-1"));
    let tab = session.tabs.get("tab-1").unwrap();
    assert_eq!(tab.title, "Terminal");
}

#[test]
fn a_stored_session_comes_back() {
    let session = Session::created_at("s".to_string(), "n".to_string(), "/d".to_string(), 9);
    let row = snapshot_row(&session, Some("L".to_string()), 42);
    assert_eq!((row.layout_snapshot.as_str(), row.last_snapshot_timestamp), ("L", 42));
    assert_eq!(snapshot_row(&session, None, 0).layout_snapshot, "");
    let back = recover_sessions(&vec![row]);
    assert_eq!((back[0].id.as_str(), back[0].cwd.as_str()), ("s", "/d"));
}

#[test]
fn test_pane_creation() {
    let mut pane = open_pane();

    assert_eq!(pane.id, "pane-1");
    assert_eq!(pane.get_generation(), 0);
    assert!(pane.is_alive());

    pane.bump_generation(no_rows());
    assert_eq!(pane.get_generation(), 1);
}

#[test]
fn test_pane_resize() {
    let mut pane = open_pane();

    assert_eq!(Pane::check_resize(&LIMITS, 100, 30), Ok((30, 100)));
    let mut emulator = Emulator::new(80, 24, 100);
    pane.resize(&mut emulator, 100, 30);
    assert_eq!(pane.get_cols(), 100);
    assert_eq!(pane.get_rows(), 30);
}

#[test]
fn test_pane_title() {
    let mut pane = open_pane();

    pane.set_title("my-title".to_string(), no_rows());
    assert_eq!(pane.get_title(), "my-title");
}

#[test]
fn a_size_beyond_the_terminal_device_is_refused() {
    let wide = GridLimits { max_cols: u32::MAX, max_rows: u32::MAX, max_cells: u64::MAX };
    assert_eq!(Pane::check_resize(&LIMITS, 0, 1), Err(PaneSizeError::Grid));
    assert_eq!(Pane::check_resize(&wide, 1, 70_000), Err(PaneSizeError::PtyRows));
    assert_eq!(Pane::check_resize(&wide, 70_000, 1), Err(PaneSizeError::PtyCols));
}

#[test]
fn exit_hook_installed_after_exit_fires_exactly_once() {
    let mut pane = open_pane();
    pane.set_alive(false);
    let mut calls = 0;
    if pane.set_exit_hook() {
        calls += 1;
    }
    if pane.fire_exit_hook() {
        calls += 1;
    }
    assert_eq!(calls, 1);
}

#[test]
fn emulator_title_events_reach_pane_subscribers() {
    let mut pane = open_pane();
    let effects = pane.handle_event(EmulatorEvent::Title("server title".to_string()), no_rows());
    assert!(matches!(&effects[..],
        [PaneEffect::TitleChanged(title), PaneEffect::Dirty] if title == "server title"));
    assert_eq!(pane.get_title(), "server title");
    let effects = pane.handle_event(EmulatorEvent::ResetTitle, no_rows());
    assert!(matches!(&effects[..],
        [PaneEffect::TitleChanged(title), PaneEffect::Dirty] if title.is_empty()));
}

#[test]
fn an_exit_of_the_emulator_runs_the_hook_once() {
    let mut pane = open_pane();
    assert!(!pane.set_exit_hook());
    let effects = pane.handle_event(EmulatorEvent::ChildExit, no_rows());
    assert!(matches!(&effects[..], [PaneEffect::RunExitHook]));
    assert!(!pane.is_alive());
    assert!(pane.handle_event(EmulatorEvent::Exit, no_rows()).is_empty());
    let bell = pane.handle_event(EmulatorEvent::Bell, no_rows());
    assert!(matches!(&bell[..], [PaneEffect::Bell]));
}

#[test]
fn a_paste_is_bracketed_where_the_program_asks_for_it() {
    let mut pane = open_pane();
    assert_eq!(pane.paste("x"), "x");
    pane.set_bracketed_paste_mode(true);
    assert_eq!(pane.paste("x"), "\x1b[200~x\x1b[201~");
    assert!(pane.set_zoomed(true, no_rows()));
    assert!(!pane.set_zoomed(true, no_rows()));
    assert!(pane.metadata_snapshot().zoomed);
}

#[test]
fn a_command_line_and_its_environment() {
    let command = ShellCommand {
        program: "/bin/cat".to_string(),
        args: vec!["-n".to_string(), "x".to_string()],
        env: TextMap::new(),
    };
    assert_eq!(command_text(&command), "/bin/cat -n x");
    let env = pane_environment("p", "");
    assert!(env.contains(&("Z3RM_PANE".to_string(), "p".to_string())));
    assert!(env.iter().all(|(key, _)| key != "Z3RM_SESSION"));
    assert!(pane_environment("p", "s").contains(&("Z3RM_SESSION".to_string(), "s".to_string())));
    assert_eq!(initial_history_version(0), 1);
    assert_eq!(initial_history_version(9), 9);
}

#[test]
fn the_read_loop_stops_at_the_end() {
    assert_eq!(read_loop_action(ReadEvent::EndOfFile), ReadAction::Stop);
    assert_eq!(read_loop_action(ReadEvent::Failed), ReadAction::Stop);
    assert_eq!(read_loop_action(ReadEvent::Bytes), ReadAction::Process);
    assert_eq!(read_loop_action(ReadEvent::Interrupted), ReadAction::Continue);
    assert_eq!(
        read_loop_action(ReadEvent::Quiet { sync_timed_out: true }),
        ReadAction::ForceFlush
    );
    assert_eq!(
        read_loop_action(ReadEvent::Quiet { sync_timed_out: false }),
        ReadAction::FlushNotify
    );
    assert_eq!(
        read_loop_action(ReadEvent::WouldBlock { sync_timed_out: false }),
        ReadAction::Continue
    );
    assert_eq!((poll_timeout(true), poll_timeout(false)), (25, 250));
}

#[test]
fn a_held_back_update_is_flushed_after_its_time() {
    let mut window = SyncWindow::new();
    assert!(force_flush_after_bsu_timeout(&mut window).is_none());
    window.pending_sync = true;
    window.pending_dirty_rows = vec![3, 1, 3];
    let request = force_flush_after_bsu_timeout(&mut window).unwrap();
    assert_eq!(request.dirty_rows, vec![1, 3]);
    assert!(request.force_broadcast);
    assert!(!window.pending_sync);
    window.pending_notify = true;
    assert!(!flush_pending_notify(&mut window, false));
    assert!(flush_pending_notify(&mut window, true));
    assert!(!flush_pending_notify(&mut window, true));
    assert_eq!(sorted_rows(&vec![2, 0, 2]), vec![0, 2]);
}

#[test]
fn a_scan_does_not_depend_on_how_bytes_are_cut() {
    let bytes: &[u8] = b"x\x1b]133;D;7\x1b\\y\x1b]7;file:///tmp\x07\x1b]133;A\x07";
    let describe = |events: &[OscEvent]| -> Vec<String> {
        events
            .iter()
            .map(|event| match event {
                OscEvent::Cwd(uri) => uri.clone(),
                OscEvent::ShellMarker { kind, exit_code, .. } => format!("{kind:?} {exit_code:?}"),
            })
            .collect()
    };
    let mut whole = Vec::new();
    OscScanner::default().scan(bytes, &mut whole);
    assert_eq!(
        describe(&whole),
        vec!["CommandEnd Some(7)", "file:///tmp", "PromptStart None"]
    );
    for cut in 0..bytes.len() {
        let mut scanner = OscScanner::default();
        let mut events = Vec::new();
        scanner.scan(&bytes[..cut], &mut events);
        scanner.scan(&bytes[cut..], &mut events);
        assert_eq!(describe(&events), describe(&whole));
    }
}

#[test]
fn a_payload_that_is_too_long_is_dropped() {
    let mut bytes = b"\x1b]7;".to_vec();
    bytes.extend(vec![b'a'; MAX_OSC_PAYLOAD + 1]);
    bytes.extend(b"\x07\x1b]133;B\x07");
    let mut events = Vec::new();
    OscScanner::default().scan(&bytes, &mut events);
    assert_eq!(events.len(), 1);
    assert!(matches!(events[0], OscEvent::ShellMarker { kind: ShellMarkerKind::CommandStart, .. }));
    assert_eq!(parse_osc133_payload(b"D;-3"), Some((ShellMarkerKind::CommandEnd, Some(-3))));
    assert_eq!(parse_osc133_payload(b"Z"), None);
}

#[test]
fn a_directory_is_decoded() {
    assert_eq!(percent_decode("/a%20b%2"), "/a b%2");
    assert_eq!(percent_decode("/plain"), "/plain");
    assert_eq!(percent_decode("%ff"), "\u{fffd}");
    assert_eq!(directory_of("file://host/tmp"), "/tmp");
    assert_eq!(directory_of("/tmp"), "/tmp");
    let mut pane = open_pane();
    assert!(pane.handle_osc7_cwd("file://h/x"));
    assert!(!pane.handle_osc7_cwd("file://h/x"));
    assert!(!pane.handle_osc7_cwd(""));
    assert_eq!(pane.get_cwd(), "/x");
}

#[test]
fn boundaries_are_met_in_the_order_of_the_stream() {
    let events = vec![OscEvent::ShellMarker {
        kind: ShellMarkerKind::PromptStart,
        exit_code: None,
        end_offset: 5,
    }];
    let media = vec![
        ScanEvent::Media {
            index: 0,
            image_id: 1,
            grid_offset: 2,
            action: None,
            placement_from_pending: false,
        },
        ScanEvent::Action { index: 0, grid_offset: 3 },
        ScanEvent::Placement { image_id: 2, grid_offset: 5, action: Some(0x54) },
    ];
    let stops = merge_boundaries(&events, &media);
    assert_eq!(stops.iter().map(|stop| stop.0).collect::<Vec<_>>(), vec![2, 5, 5]);
    assert!(matches!(stops[1].1, Boundary::Marker { .. }));
    assert!(matches!(stops[2].1, Boundary::Placement { image_id: 2, .. }));
}

#[test]
fn a_step_fits_the_raised_limit() {
    let mut addressing = RowAddressing::start(7, 10, 10, true);
    assert_eq!(addressing.raised_limit(), 970);
    let step = addressing.begin_step(5000, 5000).unwrap();
    assert_eq!((step.raise_limit_to, step.start, step.end), (Some(970), 0, 960));
    let trim = addressing.end_step(step.end, false, 30);
    assert_eq!(trim, Some(10));
    assert_eq!(addressing.viewport_top, 27);
    addressing.evicted(10);
    assert_eq!((addressing.history_size, addressing.headroom_granted), (10, false));
}

fn media(image_id: u32) -> PaneMedia {
    PaneMedia {
        pane_id: String::new(),
        sequence: 0,
        image_id,
        row: 0,
        column: 0,
        payload: Vec::new(),
    }
}

#[test]
fn media_event_waits_for_late_hook_registration() {
    let mut pane = open_pane();
    let events = vec![
        ScanEvent::Media {
            index: 0,
            image_id: 12,
            grid_offset: 0,
            action: Some(0x54),
            placement_from_pending: false,
        },
        ScanEvent::Action { index: 0, grid_offset: 0 },
    ];
    let action = PaneAction { pane_id: String::new(), sequence: 0, payload: vec![1] };
    pane.dispatch_media_events(&events, &vec![media(12)], &vec![action], false, false);
    assert!(pane.pending_typed_events.begin_drain());
    assert!(matches!(
        pane.pending_typed_events.drain_step(true, false),
        DrainStep::Deliver(PendingTypedEvent::Media(m)) if m.image_id == 12 && m.sequence == 1
    ));
    assert!(matches!(pane.pending_typed_events.drain_step(true, false), DrainStep::Done));
}

#[test]
fn hook_registration_during_drain_releases_pending_action() {
    let mut pending = PendingTypedEvents::new();
    pending.queue.push_back(PendingTypedEvent::Media(media(1)));
    pending.queue.push_back(PendingTypedEvent::Action(PaneAction {
        pane_id: String::new(),
        sequence: 2,
        payload: Vec::new(),
    }));
    assert!(pending.begin_drain());
    assert!(matches!(
        pending.drain_step(true, false),
        DrainStep::Deliver(PendingTypedEvent::Media(_))
    ));
    assert!(!pending.begin_drain(), "one drain at a time");
    assert!(matches!(pending.drain_step(true, false), DrainStep::Retry));
    assert!(matches!(
        pending.drain_step(true, true),
        DrainStep::Deliver(PendingTypedEvent::Action(_))
    ));
    assert!(matches!(pending.drain_step(true, true), DrainStep::Done));
}

#[test]
fn the_server_is_found_where_it_usually_lies() {
    assert_eq!(default_socket_path(Some("/run/user/1")), "/run/user/1/z3rm/mux.sock");
    assert_eq!(default_socket_path(None), "/tmp/z3rm/mux.sock");
    assert_eq!(default_extensions_dir(Some("/c/")), "/c/zerm/extensions");
    assert_eq!(default_extensions_dir(None), "~/zerm/extensions");
    assert_eq!(join_path("", "a"), "a");
    let candidates = server_candidates(Some("/opt"));
    assert_eq!(candidates[0], "/opt/z3rm-server");
    assert_eq!(candidates.len(), 3);
    assert_eq!(server_candidates(None).len(), 2);
    let found = find_local_server_binary(&candidates, &vec![false, true, true], None);
    assert_eq!(found.unwrap(), "/usr/local/bin/z3rm-server");
    let on_path = find_local_server_binary(
        &candidates,
        &vec![false, false, false],
        Some("/p".to_string()),
    );
    assert_eq!(on_path.unwrap(), "/p");
    assert!(find_local_server_binary(&candidates, &vec![false, false, false], None).is_err());
}

#[test]
fn a_time_in_milliseconds() {
    assert_eq!(millis_of(2, 3_999_999), 2_003);
    assert_eq!(millis_of(u64::MAX, 0), (u64::MAX as u128 * 1_000) as u64);
    let session = Session::new("s".to_string(), "n".to_string(), "/".to_string());
    assert!(session.created_timestamp > 1_600_000_000_000);
}

#[test]
fn a_pane_can_change_its_session() {
    let mut pane = open_pane();
    assert_eq!(pane.get_session_id().as_deref(), Some("session"));
    pane.set_session_id("other".to_string());
    assert_eq!(pane.get_session_id().as_deref(), Some("other"));
    assert!(!pane.is_zoomed());
    let tree = LayoutTree::with_pane("n".to_string(), "p".to_string());
    assert_eq!(tree.root.find_pane("p").as_deref(), Some("p"));
    assert_eq!(tree.root.find_pane("q"), None);
}

fn batch(in_sync: bool, sync_ended: bool, dirty_rows: Vec<usize>) -> BatchReading {
    BatchReading {
        in_sync,
        sync_ended,
        dirty_rows,
        render_state_changed: false,
        history_size_before: 0,
        history_size_after: 0,
        cursor_row_unchanged: true,
        alt_screen_changed: false,
        bracketed_paste: false,
        observer: HistoryMutationObserver::default(),
        has_media: false,
    }
}

#[test]
fn a_synchronized_update_loses_no_row() {
    let mut pane = open_pane();
    let mut window = SyncWindow::new();
    let addressing = RowAddressing::start(0, 0, 100, true);
    assert!(pane.settle_batch(&mut window, &batch(true, false, vec![4]), &addressing).is_none());
    assert!(pane.settle_batch(&mut window, &batch(true, false, vec![]), &addressing).is_none());
    assert!(pane.settle_batch(&mut window, &batch(true, false, vec![2, 4]), &addressing).is_none());
    assert_eq!(pane.get_generation(), 0);
    let request =
        pane.settle_batch(&mut window, &batch(false, true, vec![1]), &addressing).unwrap();
    assert_eq!(request.dirty_rows, vec![1, 2, 4]);
    assert!(request.force_broadcast);
    assert!(pane.settle_batch(&mut window, &batch(false, false, vec![]), &addressing).is_none());
}

#[test]
fn synchronized_updates_are_followed_across_chunks() {
    let mut tracker = SyncTracker::new();
    assert!(!tracker.parse(b"a\x1b[?20"));
    assert!(!tracker.is_in_sync());
    assert!(!tracker.parse(b"26hdraw"));
    assert!(tracker.is_in_sync());
    assert!(tracker.parse(b"more\x1b[?2026l"));
    assert!(!tracker.is_in_sync());
    assert!(!tracker.parse(b"\x1b[?2026l"));
    assert!(tracker.parse(b"\x1b\x1b[?2026h\x1b[?2026l\x1b[?2026h"));
    assert!(tracker.is_in_sync());
    tracker.close();
    assert!(!tracker.is_in_sync());
}
