//! Windows, their connections and what their commands lead to.

use std::collections::HashMap;
use std::sync::atomic::{AtomicUsize, Ordering};
use std::sync::Arc;
use z3rm::layout::SplitDirection;
use z3rm::mux_actions::{
    existing_panes, failure_message, forward_tab_drop, locate_mux_pane, mux_effect,
    mux_pane_id_for_item, new_tab_listed, new_tab_session, tab_id, Axis, MuxAction, MuxEffect,
    MuxFailure, NewTabStep, PaneItem, PaneSide, RenameSessionModal, RenameStep, ServerResize,
    WindowContext, NEW_TAB_COLS, NEW_TAB_ROWS,
};
use z3rm::mux_window::{
    begin_mux_reconnect, cyclic_pane_index, finish_mux_reconnect, focused_pane_from_layout_change,
    mark_remote_mux_window_disconnected, rebind_mux_window, MuxConnectionState,
    MuxConnectionStatusItem, MuxReconnectUnavailable, MuxWindow, MuxWindows, SessionEvent,
    SessionLayoutChanged, SessionReaction, StatusColor,
};

#[test]
fn cyclic_pane_navigation_wraps_both_directions() {
    assert_eq!(cyclic_pane_index(0, 0, true), None);
    assert_eq!(cyclic_pane_index(2, 2, true), None);
    assert_eq!(cyclic_pane_index(0, 3, true), Some(1));
    assert_eq!(cyclic_pane_index(2, 3, true), Some(0));
    assert_eq!(cyclic_pane_index(0, 3, false), Some(2));
    assert_eq!(cyclic_pane_index(2, 3, false), Some(1));
}

#[test]
fn a_step_forward_and_a_step_back_cancel() {
    for count in 1..6 {
        for current in 0..count {
            let next = cyclic_pane_index(current, count, true).unwrap();
            assert_eq!(cyclic_pane_index(next, count, false), Some(current));
        }
    }
}

#[test]
fn reconnect_state_serializes_attempts_and_records_outcomes() {
    let mut state = MuxConnectionState::Disconnected;

    assert!(state.begin_reconnect());
    assert_eq!(state, MuxConnectionState::Reconnecting);
    assert!(
        !state.begin_reconnect(),
        "a second reconnect must not start while one is in flight"
    );

    state.finish_reconnect(false);
    assert_eq!(state, MuxConnectionState::Disconnected);
    assert!(state.begin_reconnect());
    state.finish_reconnect(true);
    assert_eq!(state, MuxConnectionState::Connected);
}

fn window_added(session_id: &str, window_id: &str) -> SessionEvent {
    SessionEvent::WindowAdded {
        session_id: session_id.to_string(),
        window_id: window_id.to_string(),
    }
}

fn window_removed(session_id: &str, window_id: &str) -> SessionEvent {
    SessionEvent::WindowRemoved {
        session_id: session_id.to_string(),
        window_id: window_id.to_string(),
    }
}

#[test]
fn window_events_maintain_the_session_roster() {
    let mut windows: MuxWindows<()> = MuxWindows::default();

    assert!(windows.apply_window_event(&window_added("session-1", "win-1")));
    assert!(windows.apply_window_event(&window_added("session-1", "win-2")));
    assert_eq!(
        windows.session_window_ids("session-1"),
        vec!["win-1".to_string(), "win-2".to_string()]
    );

    windows.apply_window_event(&window_added("session-1", "win-2"));
    assert_eq!(windows.session_window_ids("session-1").len(), 2);

    assert!(windows.apply_window_event(&window_removed("session-1", "win-1")));
    assert_eq!(windows.session_window_ids("session-1"), vec!["win-2".to_string()]);

    windows.apply_window_event(&window_removed("session-1", "win-2"));
    assert!(windows.session_window_ids("session-1").is_empty());

    assert!(
        !windows.apply_window_event(&SessionEvent::Other),
        "non-window events must not be treated as membership changes"
    );
}

#[test]
fn removing_an_unknown_window_is_a_no_op() {
    let mut windows: MuxWindows<()> = MuxWindows::default();
    windows.apply_window_event(&window_added("session-1", "win-1"));

    windows.apply_window_event(&window_removed("session-2", "win-9"));

    assert_eq!(windows.session_window_ids("session-1"), vec!["win-1".to_string()]);
    assert!(windows.session_window_ids("session-2").is_empty());
}

struct SessionProbe(Arc<AtomicUsize>);

impl Drop for SessionProbe {
    fn drop(&mut self) {
        self.0.fetch_add(1, Ordering::SeqCst);
    }
}

#[test]
fn rebinding_a_window_preserves_the_held_ssh_session_until_removed() {
    let drops = Arc::new(AtomicUsize::new(0));
    let mut windows: HashMap<u64, MuxWindow<SessionProbe>> = HashMap::new();

    rebind_mux_window(
        &mut windows,
        1,
        10,
        "session-1".to_string(),
        Some(SessionProbe(drops.clone())),
    );

    rebind_mux_window(&mut windows, 1, 11, "session-2".to_string(), None);
    assert_eq!(
        drops.load(Ordering::SeqCst),
        0,
        "a session switch must not drop the held SSH session"
    );
    assert_eq!(
        windows.get(&1).map(|binding| binding.session_id.as_str()),
        Some("session-2"),
        "the new binding must win"
    );
    assert_eq!(windows.len(), 1, "rebinding must not leak window slots");

    windows.remove(&1);
    assert_eq!(
        drops.load(Ordering::SeqCst),
        1,
        "removing the window owner must drop the SSH session"
    );
}

#[test]
fn layout_change_carries_the_authoritative_focus() {
    let with_focus =
        SessionLayoutChanged { has_layout: false, snapshot_focus: Some("pane-7".to_string()) };
    assert_eq!(focused_pane_from_layout_change(&with_focus), Some("pane-7".to_string()));

    let unfocused = SessionLayoutChanged { has_layout: false, snapshot_focus: Some(String::new()) };
    assert_eq!(focused_pane_from_layout_change(&unfocused), None);

    let no_snapshot = SessionLayoutChanged { has_layout: false, snapshot_focus: None };
    assert_eq!(focused_pane_from_layout_change(&no_snapshot), None);
}

#[test]
fn a_lost_connection_is_announced() {
    let mut item = MuxConnectionStatusItem::new();
    assert_eq!(item.render().announcement, "Mux connection: Connected");
    assert!(item.render().visible.is_none());
    assert!(item.set_state(MuxConnectionState::Disconnected));
    assert!(!item.set_state(MuxConnectionState::Disconnected));
    assert_eq!(item.render().visible, Some(("Disconnected", StatusColor::Error)));
    item.set_state(MuxConnectionState::Reconnecting);
    assert_eq!(item.render().visible, Some(("Reconnecting\u{2026}", StatusColor::Warning)));
    assert_eq!(MuxConnectionState::default(), MuxConnectionState::Connected);
}

#[test]
fn a_remote_window_connects_again() {
    let mut windows: HashMap<u64, MuxWindow<&str>> = HashMap::new();
    assert!(matches!(
        begin_mux_reconnect(&mut windows, 1),
        Err(MuxReconnectUnavailable::WindowNotBound)
    ));
    rebind_mux_window(&mut windows, 1, 7, "s".to_string(), None);
    assert!(matches!(
        begin_mux_reconnect(&mut windows, 1),
        Err(MuxReconnectUnavailable::LocalWindow)
    ));
    assert!(!mark_remote_mux_window_disconnected(&mut windows, 1, 7));

    rebind_mux_window(&mut windows, 2, 8, "r".to_string(), Some("tunnel"));
    assert!(mark_remote_mux_window_disconnected(&mut windows, 2, 8));
    assert!(!mark_remote_mux_window_disconnected(&mut windows, 2, 8));
    assert!(!mark_remote_mux_window_disconnected(&mut windows, 2, 9));
    let request = begin_mux_reconnect(&mut windows, 2).unwrap();
    assert_eq!((request.domain, request.session_id.as_str()), (8, "r"));
    assert!(Arc::ptr_eq(&request.ssh_session, windows[&2].ssh_session.as_ref().unwrap()));
    assert!(matches!(
        begin_mux_reconnect(&mut windows, 2),
        Err(MuxReconnectUnavailable::InProgress)
    ));
    assert!(!finish_mux_reconnect(&mut windows, 2, 9, true));
    assert!(finish_mux_reconnect(&mut windows, 2, 8, true));
    assert_eq!(windows[&2].connection_state, MuxConnectionState::Connected);
}

#[test]
fn a_window_is_told_that_it_was_removed() {
    let mut windows: MuxWindows<()> = MuxWindows::new();
    let added = window_added("s", "mine");
    assert!(matches!(
        windows.handle_notification(Some(&added), "s", "mine", true),
        SessionReaction::Membership { windows, error: None } if windows == vec!["mine"]
    ));
    let removed = window_removed("s", "mine");
    assert!(matches!(
        windows.handle_notification(Some(&removed), "s", "mine", true),
        SessionReaction::Membership { windows, error: Some(text) }
            if windows.is_empty() && text == "This window was removed from the mux session"
    ));
    let layout = SessionEvent::SessionLayoutChanged(SessionLayoutChanged {
        has_layout: true,
        snapshot_focus: Some("p".to_string()),
    });
    assert!(matches!(
        windows.handle_notification(Some(&layout), "s", "mine", true),
        SessionReaction::ApplyLayout { focused: Some(pane) } if pane == "p"
    ));
    assert!(matches!(
        windows.handle_notification(Some(&layout), "s", "mine", false),
        SessionReaction::Stop
    ));
    assert!(matches!(
        windows.handle_notification(None, "s", "mine", true),
        SessionReaction::Ignore
    ));
}

#[test]
fn a_binding_lives_until_its_window_is_taken() {
    let mut windows: MuxWindows<()> = MuxWindows::new();
    assert_eq!(windows.mux_domain_for_window(1, Some(9)), Some(9));
    windows.register_mux_window(1, 5, "s".to_string(), None);
    assert_eq!(windows.mux_domain_for_window(1, Some(9)), Some(5));
    assert_eq!(windows.mux_session_for_window(1).as_deref(), Some("s"));
    assert_eq!(windows.mux_binding_for_window(1), Some((5, "s".to_string())));
    assert_eq!(windows.take_mux_window(1).unwrap().domain, 5);
    assert!(windows.take_mux_window(1).is_none());
    assert_eq!(windows.mux_binding_for_window(1), None);
    assert_eq!(windows.published_state(1), None);
}

fn context() -> WindowContext {
    WindowContext {
        domain: Some(3),
        has_session: true,
        active_zoomed: Some(false),
        active_index: Some(2),
        pane_count: 3,
        left: Some(0),
        right: None,
        up: None,
        down: None,
    }
}

#[test]
fn a_command_becomes_a_request() {
    let shown = context();
    assert_eq!(
        mux_effect(MuxAction::SplitRight, &shown),
        MuxEffect::SplitPane {
            domain: 3,
            direction: SplitDirection::LeftRight,
            side: PaneSide::Right
        }
    );
    assert_eq!(mux_effect(MuxAction::FocusNextPane, &shown), MuxEffect::FocusPane(0));
    assert_eq!(mux_effect(MuxAction::FocusPrevPane, &shown), MuxEffect::FocusPane(1));
    assert_eq!(mux_effect(MuxAction::Focus(PaneSide::Left), &shown), MuxEffect::FocusPane(0));
    assert_eq!(mux_effect(MuxAction::Focus(PaneSide::Right), &shown), MuxEffect::Nothing);
    assert_eq!(mux_effect(MuxAction::FocusPaneIndex(3), &shown), MuxEffect::Nothing);
    assert_eq!(mux_effect(MuxAction::ZoomToggle, &shown), MuxEffect::SetZoomed(true));
    assert_eq!(
        mux_effect(MuxAction::Resize(PaneSide::Up), &shown),
        MuxEffect::ResizePane {
            axis: Axis::Vertical,
            pixels: -50,
            told: Some(ServerResize {
                domain: 3,
                direction: SplitDirection::TopBottom,
                hundredths: -5
            }),
        }
    );
}

#[test]
fn nothing_is_asked_without_a_connection() {
    let lost = WindowContext { domain: None, ..context() };
    for action in [
        MuxAction::SplitRight,
        MuxAction::SplitDown,
        MuxAction::CloseTab,
        MuxAction::NewTab,
        MuxAction::RenameSession,
    ] {
        assert_eq!(mux_effect(action, &lost), MuxEffect::Nothing);
    }
    assert!(matches!(
        mux_effect(MuxAction::Resize(PaneSide::Down), &lost),
        MuxEffect::ResizePane { told: None, pixels: 50, .. }
    ));
}

#[test]
fn a_new_tab_finds_its_session() {
    let known = Some("a".to_string());
    let last = Some("b".to_string());
    assert!(matches!(new_tab_session(known, last.clone()), NewTabStep::Spawn(s) if s == "a"));
    assert!(matches!(new_tab_session(None, last), NewTabStep::Spawn(s) if s == "b"));
    assert!(matches!(new_tab_session(None, None), NewTabStep::ListSessions));
    assert_eq!(new_tab_listed(Ok(&vec!["x".to_string()])), Ok("x".to_string()));
    let none = "No mux session is available for the new tab".to_string();
    assert_eq!(new_tab_listed(Ok(&Vec::new())), Err(vec![none.clone()]));
    let failed = "Failed to find a mux session for the new tab: io".to_string();
    assert_eq!(new_tab_listed(Err("io")), Err(vec![failed, none]));
    assert_eq!(tab_id("x1"), "tab-x1");
    assert_eq!((NEW_TAB_COLS, NEW_TAB_ROWS), (80, 24));
    assert_eq!(
        failure_message(MuxFailure::Split, "p1", "no"),
        "Failed to split mux pane p1: no"
    );
}

fn item(item_id: u64, pane_id: Option<&str>) -> PaneItem {
    PaneItem { item_id, pane_id: pane_id.map(|id| id.to_string()) }
}

#[test]
fn panes_are_found_among_the_items() {
    let panes = vec![
        vec![item(1, None), item(2, Some("a"))],
        vec![item(3, Some("b")), item(4, Some("a"))],
    ];
    assert_eq!(locate_mux_pane(&panes, "a"), Some((0, 1)));
    assert_eq!(locate_mux_pane(&panes, "c"), None);
    assert_eq!(mux_pane_id_for_item(&panes, 3).as_deref(), Some("b"));
    assert_eq!(mux_pane_id_for_item(&panes, 1), None);
    let existing = existing_panes(&panes);
    assert_eq!(existing.get("a"), Some(&0));
    assert_eq!(existing.get("b"), Some(&1));
    assert_eq!(existing.len(), 2);
}

#[test]
fn a_dropped_tab_moves_its_pane() {
    let id = |text: &str| Some(text.to_string());
    let request =
        forward_tab_drop(id("a"), id("b"), Some(PaneSide::Up), false, None, true).unwrap();
    assert_eq!(request.direction, SplitDirection::TopBottom);
    assert!(request.before);
    let beside = forward_tab_drop(id("a"), id("b"), None, false, None, true).unwrap();
    assert_eq!((beside.direction, beside.before), (SplitDirection::LeftRight, false));
    assert!(forward_tab_drop(id("a"), id("a"), None, false, None, true).is_none());
    assert!(forward_tab_drop(id("a"), None, None, false, None, true).is_none());
    assert!(forward_tab_drop(id("a"), id("b"), None, false, None, false).is_none());
}

#[test]
fn a_session_gets_a_name_that_says_something() {
    let mut modal = RenameSessionModal::new("s2".to_string());
    let sessions =
        vec![("s1".to_string(), "one".to_string()), ("s2".to_string(), "two".to_string())];
    assert_eq!(modal.prefill(&sessions, "").as_deref(), Some("two"));
    assert_eq!(modal.prefill(&sessions, "x"), None);
    assert!(matches!(modal.confirm("  "), RenameStep::Stay));
    assert_eq!(modal.error.as_deref(), Some("A session needs a name"));
    assert!(matches!(modal.confirm(" new "), RenameStep::Rename(name) if name == "new"));
    assert!(modal.error.is_none());
    assert!(matches!(modal.answered(Err("taken".to_string())), RenameStep::Stay));
    assert_eq!(modal.error.as_deref(), Some("taken"));
    assert!(matches!(modal.answered(Ok(())), RenameStep::Dismiss));
}
