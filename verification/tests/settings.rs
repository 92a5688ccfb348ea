//! Settings, the stores behind the editor and its notifications.

use z3rm::document_colors::{LspColorData, LspDocumentLinks};
use z3rm::editor_features::{
    find_url, find_url_from_range, inlay_hint_settings, split_words, BreakpointStore,
    CodeContextMenu, CompletionsMenu, HoverState, LocalProject, ProjectExt, SignatureHelpState,
    VimModeSetting,
};
use z3rm::editor_settings::{
    ui_scrollbar_settings_from_raw, DelayMs, DisplayIn, DocumentColorsRenderMode, EditorSettings,
    EditorSettingsScrollbarProxy, RawShowScrollbar, RelativeLineNumbers, ShowMinimap,
    ShowScrollbar,
};
use z3rm::notification_store::{
    NotificationEntry, NotificationEvent, NotificationStore, NotificationSummary,
};
use z3rm::project_panel_settings::{
    sort_mode, sort_order, AutoOpenSettings, ProjectPanelScrollbarProxy, ProjectPanelSettings,
    ProjectPanelSortMode, ProjectPanelSortOrder, ScrollbarSettings, SortMode, SortOrder,
};
use z3rm::semantic_tokens::SemanticTokenState;
use z3rm::settings_content::{
    ParseStatus, PlatformOverrides, ProfileBase, ReleaseChannelOverrides, RemoteSettingsContent,
    SaturatingBool, SemanticTokenRule, SemanticTokenRules, SettingsProfile, UserSettingsContent,
};
use z3rm::text::{
    chars_of, comes_before, contains_chars, decimal_chars, find_char, parse_i32, parse_unsigned,
    push_decimal, rfind_char, same_text, trim,
};

#[test]
fn an_editor_starts_with_its_defaults() {
    let settings = EditorSettings::from_settings("word");
    assert_eq!(settings.seed_search_query_from_cursor, "word");
    assert_eq!(settings.hover_popover_delay, DelayMs(50));
    assert_eq!(settings.scroll_sensitivity_hundredths, 100);
    assert_eq!(settings.minimap.max_width_columns, 128);
    assert!(settings.minimap.minimap_enabled());
    assert!(settings.minimap.on_active_editor());
    assert_eq!(settings.minimap.display_in, DisplayIn::ActiveEditor);
    let shown = settings.minimap.with_show_override();
    assert_eq!(shown.show, ShowMinimap::Always);
    assert!(!RelativeLineNumbers::Disabled.enabled());
    assert!(RelativeLineNumbers::Wrapped.wrapped());
    let proxy = EditorSettingsScrollbarProxy {};
    assert_eq!(proxy.visibility(&settings), ShowScrollbar::Auto);
    assert_eq!(ui_scrollbar_settings_from_raw(RawShowScrollbar::Never), ShowScrollbar::Never);
}

#[test]
fn a_panel_follows_the_editor_unless_told_otherwise() {
    let editor = EditorSettings::from_settings(());
    let mut panel = ProjectPanelSettings::from_settings();
    let proxy = ProjectPanelScrollbarProxy {};
    assert_eq!(proxy.visibility(&panel, &editor), editor.scrollbar.show);
    panel.scrollbar.show = Some(ShowScrollbar::Never);
    assert_eq!(proxy.visibility(&panel, &editor), ShowScrollbar::Never);
    assert!(ScrollbarSettings::default().horizontal_scroll);
    assert_eq!(sort_mode(ProjectPanelSortMode::FilesFirst), SortMode::FilesFirst);
    assert_eq!(sort_order(ProjectPanelSortOrder::Unicode), SortOrder::Unicode);
    let auto = AutoOpenSettings { on_create: true, on_paste: false, on_drop: true };
    assert!(auto.should_open_on_create());
    assert!(!auto.should_open_on_paste());
    assert!(auto.should_open_on_drop());
}

#[test]
fn a_saturated_switch_stays_on() {
    let mut switch = SaturatingBool::from(false);
    switch.merge_from(&SaturatingBool(true));
    switch.merge_from(&SaturatingBool(false));
    assert!(switch.get());
    assert_eq!(switch.to_text(), "true");
    assert_eq!(SaturatingBool::default().to_text(), "false");
    assert!(RemoteSettingsContent::default().auto_install);
}

#[test]
fn overrides_are_found_by_their_names() {
    let channels = ReleaseChannelOverrides {
        dev: Some(Box::new(1)),
        nightly: None,
        preview: None,
        stable: Some(Box::new(4)),
    };
    assert_eq!(channels.get_by_key("stable"), Some(&4));
    assert_eq!(channels.get_by_key("nightly"), None);
    assert_eq!(channels.get_by_key("beta"), None);
    let platforms = PlatformOverrides { macos: None, linux: Some(Box::new("l")), windows: None };
    assert_eq!(platforms.get_by_key("linux"), Some(&"l"));
    assert_eq!(platforms.get_by_key("macos"), None);
    assert_eq!(
        ReleaseChannelOverrides::<i32>::override_keys(),
        ["dev", "nightly", "preview", "stable"]
    );
    assert_eq!(PlatformOverrides::<i32>::override_keys(), ["macos", "linux", "windows"]);
    for key in PlatformOverrides::<i32>::override_keys() {
        assert_eq!(PlatformOverrides::<i32>::default().get_by_key(key), None);
    }
}

#[test]
fn settings_of_a_user_start_empty() {
    let profile = SettingsProfile::<Vec<u8>>::default();
    assert_eq!(profile.base, ProfileBase::User);
    assert!(profile.settings.is_empty());
    let user = UserSettingsContent::<Vec<u8>>::default();
    assert!(user.content.is_empty());
    assert_eq!(user.release_channel_overrides, ReleaseChannelOverrides::default());
    assert_eq!(user.platform_overrides, PlatformOverrides::default());
    assert_eq!(user.profiles.len(), 0);
    assert!(user == user.clone());
}

#[test]
fn the_same_profiles_in_another_order_are_the_same_settings() {
    let profile = |name: &str, content: u8| {
        (name.to_string(), SettingsProfile { base: ProfileBase::User, settings: Box::new(content) })
    };
    let user = |profiles: Vec<(String, SettingsProfile<u8>)>| {
        let mut user = UserSettingsContent::<u8>::default();
        for (name, profile) in profiles {
            user.profiles.insert(name, profile);
        }
        user
    };
    let one = user(vec![profile("a", 1), profile("b", 2)]);
    assert!(one == user(vec![profile("b", 2), profile("a", 1)]));
    assert!(one != user(vec![profile("a", 1), profile("b", 3)]));
    assert!(one != user(vec![profile("a", 1), profile("c", 2)]));
    assert!(one != user(vec![profile("a", 1)]));
    assert_eq!(
        ParseStatus::Failed { error: "x".to_string() },
        ParseStatus::Failed { error: "x".to_string() }
    );
    assert_ne!(ParseStatus::Success, ParseStatus::Unchanged);
}

fn rules(kind: &str) -> SemanticTokenRules {
    SemanticTokenRules {
        rules: vec![SemanticTokenRule {
            token_type: Some(kind.to_string()),
            token_modifiers: vec!["static".to_string()],
            style: Vec::new(),
        }],
    }
}

#[test]
fn only_other_rules_are_a_change() {
    let mut state = SemanticTokenState::new(rules("variable"), true);
    assert!(!state.update_rules(rules("variable")));
    assert!(state.update_rules(rules("function")));
    assert!(rules("a").same(&rules("a")));
    assert!(!rules("a").same(&rules("b")));
    state.toggle_enabled();
    assert!(!state.enabled());
    state.fetched_for_buffers.insert(3, 1);
    state.invalidate_buffer(3);
    assert!(state.fetched_for_buffers.is_empty());
}

#[test]
fn colours_are_shown_in_another_way() {
    let mut data = LspColorData::new(DocumentColorsRenderMode::Inlay);
    assert!(data.render_mode_updated(DocumentColorsRenderMode::Inlay).is_none());
    let splice = data.render_mode_updated(DocumentColorsRenderMode::Border).unwrap();
    assert!(splice.to_insert.is_empty());
    let (mode, ranges) = data.editor_display_highlights();
    assert_eq!(mode, DocumentColorsRenderMode::Border);
    assert!(ranges.is_empty());
    assert!(LspDocumentLinks::new(true).per_buffer.is_empty());
}

#[test]
fn features_without_a_language_server_have_nothing_to_show() {
    assert!(split_words("two words").is_empty());
    assert!(find_url("https://x").is_none());
    assert!(find_url_from_range("https://x", 0..3).is_none());
    assert!(!inlay_hint_settings().enabled);
    assert!(BreakpointStore::default().breakpoints(1).is_empty());
    assert!(!CodeContextMenu::Completions(CompletionsMenu {}).select_first());
    assert!(!HoverState::default().focused());
    assert!(SignatureHelpState::default().popover_mut().is_none());
    assert!(VimModeSetting::try_get().is_none());
    assert!(!LocalProject {}.is_remote());
}

fn entry(id: u64, is_read: bool) -> NotificationEntry {
    NotificationEntry {
        id,
        notification: format!("n{id}"),
        timestamp: id as i128,
        is_read,
        response: None,
    }
}

#[test]
fn notifications_come_are_read_and_go() {
    let mut store = NotificationStore::new();
    let events = store
        .splice_notifications(vec![(1, Some(entry(1, false))), (3, Some(entry(3, false)))], true);
    assert!(matches!(&events[..], [
        NotificationEvent::NewNotification { entry: first },
        NotificationEvent::NewNotification { entry: second },
        NotificationEvent::NotificationsUpdated { start: 0, end: 0, new_count: 2 },
    ] if first.id == 1 && second.id == 3));
    assert_eq!(store.notification_count(), 2);
    assert_eq!(store.unread_notification_count(), 2);

    let events = store.splice_notifications(vec![(1, Some(entry(1, true)))], false);
    assert!(matches!(&events[..], [
        NotificationEvent::NotificationRead { entry },
        NotificationEvent::NotificationsUpdated { start: 0, end: 1, new_count: 1 },
    ] if entry.id == 1));
    assert_eq!(store.unread_notification_count(), 1);

    let events = store.splice_notifications(vec![(1, None)], false);
    assert!(matches!(&events[..], [
        NotificationEvent::NotificationRemoved { entry },
        NotificationEvent::NotificationsUpdated { start: 0, end: 1, new_count: 0 },
    ] if entry.is_read));
    assert!(store.notification_for_id(1).is_none());
    assert_eq!(store.notification_for_id(3).unwrap().notification, "n3");
    assert_eq!(store.notification_at(0).unwrap().id, 3);
    assert!(store.notification_at(1).is_none());
}

#[test]
fn an_older_notification_is_no_news() {
    let mut store = NotificationStore::new();
    store.splice_notifications(vec![(5, Some(entry(5, false)))], true);
    let events = store.splice_notifications(vec![(2, Some(entry(2, false)))], true);
    assert!(matches!(&events[..], [
        NotificationEvent::NotificationsUpdated { start: 0, end: 0, new_count: 1 },
    ]));
    let events = store.splice_notifications(Vec::new(), true);
    assert_eq!(events.len(), 1);
    assert_eq!(store.notification_count(), 2);
}

#[test]
fn summaries_add_up() {
    let mut sum = NotificationSummary::zero();
    sum.add_summary(&entry(4, true).summary());
    sum.add_summary(&entry(7, false).summary());
    assert_eq!(sum, NotificationSummary { max_id: 7, count: 2, unread_count: 1 });
}

#[test]
fn numbers_and_texts_are_read() {
    assert_eq!(parse_unsigned(&chars_of("65535"), 0xffff), Some(65535));
    assert_eq!(parse_unsigned(&chars_of("65536"), 0xffff), None);
    assert_eq!(parse_unsigned(&chars_of("+7"), 0xffff), Some(7));
    assert_eq!(parse_unsigned(&chars_of(""), 9), None);
    assert_eq!(parse_i32(&chars_of("-2147483648")), Some(i32::MIN));
    assert_eq!(parse_i32(&chars_of("2147483648")), None);
    let mut text = String::new();
    for n in [0, 9, 10, u64::MAX] {
        text.clear();
        push_decimal(&mut text, n);
        assert_eq!(text, n.to_string());
        assert_eq!(decimal_chars(n), chars_of(&text));
    }
    assert_eq!(trim(&chars_of(" \u{2003}a b\n")), chars_of("a b"));
    assert!(same_text("a", "a") && !same_text("a", "ab"));
    assert!(contains_chars(&chars_of("abc"), &chars_of("bc")));
    assert_eq!(find_char(&chars_of("a:b:c"), ':'), Some(1));
    assert_eq!(rfind_char(&chars_of("a:b:c"), ':'), Some(3));
    assert!(comes_before(&chars_of("ab"), &chars_of("b")));
    assert!(!comes_before(&chars_of("b"), &chars_of("b")));
}
