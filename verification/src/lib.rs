//! Verified logic of a terminal multiplexer: scanning and row addressing of pane
//! output, grid synchronisation, layouts, sessions, remote hosts, shadow snapshots
//! and the settings that drive them.
pub mod ancestor_table;
pub mod blob_store;
pub mod clipboard;
pub mod clock;
pub mod command_history;
pub mod connection;
pub mod cwd;
pub mod decline;
pub mod document_colors;
pub mod editor_features;
pub mod editor_settings;
pub mod emulator;
pub mod grid_sync;
pub mod hashing;
pub mod id_set;
pub mod layout;
pub mod lca;
pub mod marker_walk;
pub mod marketplace;
pub mod marketplace_browser;
pub mod memtable;
pub mod monitor;
pub mod mux_actions;
pub mod mux_window;
pub mod notification_store;
pub mod osc;
pub mod pane;
pub mod pane_laws;
pub mod pattern;
pub mod persistence;
pub mod project_panel_settings;
pub mod quota;
pub mod remote_install;
pub mod remote_setup;
pub mod row_addressing;
pub mod scrollback_search;
pub mod semantic_tokens;
pub mod server_paths;
pub mod session;
pub mod settings_content;
pub mod shell;
pub mod ssh;
pub mod sync;
pub mod sync_update;
pub mod text;
pub mod text_map;
pub mod typed_events;
pub mod version_tree;
pub mod wal;
pub mod wal_laws;
