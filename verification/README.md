# z3rm

The logic of a terminal multiplexer and of the tools around it, written in Rust and proved with
Verus.

- `src/` is the library. Every function states in its contract what it returns or changes, and
  Verus proves it. The laws that span functions stand beside them as public proof functions whose
  names begin with `law_`.
- `tests/` runs the library on concrete values, together with the crates that it calls.
- `app/` is the daemon and the input and output around the library: the terminal device, SSH, the
  databases, files and sockets.

| Part | Modules |
| --- | --- |
| Panes | `emulator`, `osc`, `sync_update`, `row_addressing`, `marker_walk`, `typed_events`, `pane`, `grid_sync`, `cwd` |
| Sessions | `session`, `layout`, `connection`, `clipboard`, `persistence`, `server_paths` |
| Clients | `command_history`, `scrollback_search`, `mux_window`, `mux_actions` |
| Remote hosts | `ssh`, `shell`, `remote_install`, `remote_setup`, `sync` |
| Extensions | `marketplace`, `marketplace_browser` |
| Versions of files | `version_tree`, `ancestor_table`, `lca`, `wal`, `decline`, `blob_store`, `memtable`, `quota`, `monitor`, `hashing`, `id_set` |
| Editor | `editor_settings`, `editor_features`, `settings_content`, `project_panel_settings`, `semantic_tokens`, `document_colors`, `notification_store` |
| Shared | `text`, `text_map`, `pattern`, `clock` |

Calls into other crates stand behind small functions marked `#[verifier::external_body]`. The
comment above each one says what is taken from that crate without proof.
