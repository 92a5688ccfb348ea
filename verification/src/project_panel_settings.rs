//! The settings of the project panel.
use vstd::prelude::*;

use crate::editor_settings::{EditorSettings, ShowScrollbar};

verus! {

/// The side of the window at which the panel stands.
#[derive(Clone, Copy, Debug, PartialEq, Eq, Structural)]
pub enum DockSide {
    /// The left one.
    Left,
    /// The right one.
    Right,
}

impl Default for DockSide {
    fn default() -> (value: DockSide)
        ensures
            value == DockSide::Left,
    {
        DockSide::Left
    }
}

/// How far apart entries stand.
#[derive(Clone, Copy, Debug, PartialEq, Eq, Structural)]
pub enum ProjectPanelEntrySpacing {
    /// Far.
    Comfortable,
    /// Near.
    Standard,
}

impl Default for ProjectPanelEntrySpacing {
    fn default() -> (value: ProjectPanelEntrySpacing)
        ensures
            value == ProjectPanelEntrySpacing::Comfortable,
    {
        ProjectPanelEntrySpacing::Comfortable
    }
}

/// Which entries come first.
#[derive(Clone, Copy, Debug, PartialEq, Eq, Structural)]
pub enum ProjectPanelSortMode {
    /// Directories.
    DirectoriesFirst,
    /// Neither directories nor files.
    Mixed,
    /// Files.
    FilesFirst,
}

impl Default for ProjectPanelSortMode {
    fn default() -> (value: ProjectPanelSortMode)
        ensures
            value == ProjectPanelSortMode::DirectoriesFirst,
    {
        ProjectPanelSortMode::DirectoriesFirst
    }
}

/// How names are ordered.
#[derive(Clone, Copy, Debug, PartialEq, Eq, Structural)]
pub enum ProjectPanelSortOrder {
    /// As people read them.
    Default,
    /// Capital letters first.
    Upper,
    /// Small letters first.
    Lower,
    /// By their characters' numbers.
    Unicode,
}

impl Default for ProjectPanelSortOrder {
    fn default() -> (value: ProjectPanelSortOrder)
        ensures
            value == ProjectPanelSortOrder::Default,
    {
        ProjectPanelSortOrder::Default
    }
}

/// When guides of indentation are shown.
#[derive(Clone, Copy, Debug, PartialEq, Eq, Structural)]
pub enum ShowIndentGuides {
    /// Always.
    Always,
    /// Never.
    Never,
}

impl Default for ShowIndentGuides {
    fn default() -> (value: ShowIndentGuides)
        ensures
            value == ShowIndentGuides::Always,
    {
        ShowIndentGuides::Always
    }
}

/// Which diagnostics are shown.
#[derive(Clone, Copy, Debug, PartialEq, Eq, Structural)]
pub enum ShowDiagnostics {
    /// None.
    Off,
    /// Errors.
    Errors,
    /// All.
    All,
}

impl Default for ShowDiagnostics {
    fn default() -> (value: ShowDiagnostics)
        ensures
            value == ShowDiagnostics::Off,
    {
        ShowDiagnostics::Off
    }
}

/// Which paths come first.
#[derive(Clone, Copy, Debug, PartialEq, Eq, Structural)]
pub enum SortMode {
    /// Directories.
    DirectoriesFirst,
    /// Neither directories nor files.
    Mixed,
    /// Files.
    FilesFirst,
}

/// How paths are ordered.
#[derive(Clone, Copy, Debug, PartialEq, Eq, Structural)]
pub enum SortOrder {
    /// As people read them.
    Default,
    /// Capital letters first.
    Upper,
    /// Small letters first.
    Lower,
    /// By their characters' numbers.
    Unicode,
}

/// The guides of indentation.
#[derive(Clone, Copy, Debug, PartialEq, Eq, Structural)]
pub struct IndentGuidesSettings {
    /// When they are shown.
    pub show: ShowIndentGuides,
}

impl Default for IndentGuidesSettings {
    fn default() -> (value: IndentGuidesSettings)
        ensures
            value.show == ShowIndentGuides::Always,
    {
        IndentGuidesSettings { show: ShowIndentGuides::Always }
    }
}

/// The scrollbar of the panel.
#[derive(Clone, Copy, Debug, PartialEq, Eq, Structural)]
pub struct ScrollbarSettings {
    /// When it is shown, where that differs from the editor.
    pub show: Option<ShowScrollbar>,
    /// Whether the panel scrolls sideways; where it does not, long names are cut.
    pub horizontal_scroll: bool,
}

impl Default for ScrollbarSettings {
    fn default() -> (value: ScrollbarSettings)
        ensures
            value.show is None,
            value.horizontal_scroll,
    {
        ScrollbarSettings { show: None, horizontal_scroll: true }
    }
}

/// Which files are opened by themselves.
#[derive(Clone, Copy, Debug, PartialEq, Eq, Structural)]
pub struct AutoOpenSettings {
    /// Files that are made.
    pub on_create: bool,
    /// Files that are pasted.
    pub on_paste: bool,
    /// Files that are dropped.
    pub on_drop: bool,
}

impl Default for AutoOpenSettings {
    fn default() -> (value: AutoOpenSettings)
        ensures
            !value.on_create,
            !value.on_paste,
            !value.on_drop,
    {
        AutoOpenSettings { on_create: false, on_paste: false, on_drop: false }
    }
}

impl AutoOpenSettings {
    /// Whether a file that is made is opened.
    pub fn should_open_on_create(self) -> (open: bool)
        ensures
            open == self.on_create,
    {
        self.on_create
    }

    /// Whether a file that is pasted is opened.
    pub fn should_open_on_paste(self) -> (open: bool)
        ensures
            open == self.on_paste,
    {
        self.on_paste
    }

    /// Whether a file that is dropped is opened.
    pub fn should_open_on_drop(self) -> (open: bool)
        ensures
            open == self.on_drop,
    {
        self.on_drop
    }
}

/// The settings of the panel.
#[derive(Clone, Copy, Debug, PartialEq, Eq, Structural)]
pub struct ProjectPanelSettings {
    /// Whether there is a button for the panel.
    pub button: bool,
    /// Whether ignored files are hidden.
    pub hide_gitignore: bool,
    /// The width, in hundredths of a pixel.
    pub default_width_hundredths: u32,
    /// Where the panel stands.
    pub dock: DockSide,
    /// How far apart entries stand.
    pub entry_spacing: ProjectPanelEntrySpacing,
    /// Whether files have icons.
    pub file_icons: bool,
    /// Whether directories have icons.
    pub folder_icons: bool,
    /// Whether changed files are coloured.
    pub git_status: bool,
    /// The indentation, in hundredths of a pixel.
    pub indent_size_hundredths: u32,
    /// The guides of indentation.
    pub indent_guides: IndentGuidesSettings,
    /// Whether parents stay in view.
    pub sticky_scroll: bool,
    /// Whether the active file is shown.
    pub auto_reveal_entries: bool,
    /// Whether directories with one entry are folded.
    pub auto_fold_dirs: bool,
    /// Whether directories are bold.
    pub bold_folder_labels: bool,
    /// Whether the panel is open at the start.
    pub starts_open: bool,
    /// The scrollbar.
    pub scrollbar: ScrollbarSettings,
    /// Which diagnostics are shown.
    pub show_diagnostics: ShowDiagnostics,
    /// Whether the root is hidden.
    pub hide_root: bool,
    /// Whether hidden files are hidden.
    pub hide_hidden: bool,
    /// Whether entries can be dragged.
    pub drag_and_drop: bool,
    /// Which files are opened by themselves.
    pub auto_open: AutoOpenSettings,
    /// Which entries come first.
    pub sort_mode: ProjectPanelSortMode,
    /// How names are ordered.
    pub sort_order: ProjectPanelSortOrder,
    /// Whether diagnostics are counted.
    pub diagnostic_badges: bool,
    /// Whether changed files are marked.
    pub git_status_indicator: bool,
}

/// The settings that hold where nothing else is said.
pub open spec fn default_panel() -> ProjectPanelSettings {
    ProjectPanelSettings {
        button: false,
        hide_gitignore: false,
        default_width_hundredths: 0,
        dock: DockSide::Left,
        entry_spacing: ProjectPanelEntrySpacing::Comfortable,
        file_icons: false,
        folder_icons: false,
        git_status: false,
        indent_size_hundredths: 0,
        indent_guides: IndentGuidesSettings { show: ShowIndentGuides::Always },
        sticky_scroll: false,
        auto_reveal_entries: false,
        auto_fold_dirs: false,
        bold_folder_labels: false,
        starts_open: false,
        scrollbar: ScrollbarSettings { show: None, horizontal_scroll: true },
        show_diagnostics: ShowDiagnostics::Off,
        hide_root: false,
        hide_hidden: false,
        drag_and_drop: false,
        auto_open: AutoOpenSettings { on_create: false, on_paste: false, on_drop: false },
        sort_mode: ProjectPanelSortMode::DirectoriesFirst,
        sort_order: ProjectPanelSortOrder::Default,
        diagnostic_badges: false,
        git_status_indicator: false,
    }
}

impl Default for ProjectPanelSettings {
    fn default() -> (settings: ProjectPanelSettings)
        ensures
            settings == default_panel(),
    {
        ProjectPanelSettings {
            button: false,
            hide_gitignore: false,
            default_width_hundredths: 0,
            dock: DockSide::Left,
            entry_spacing: ProjectPanelEntrySpacing::Comfortable,
            file_icons: false,
            folder_icons: false,
            git_status: false,
            indent_size_hundredths: 0,
            indent_guides: IndentGuidesSettings { show: ShowIndentGuides::Always },
            sticky_scroll: false,
            auto_reveal_entries: false,
            auto_fold_dirs: false,
            bold_folder_labels: false,
            starts_open: false,
            scrollbar: ScrollbarSettings { show: None, horizontal_scroll: true },
            show_diagnostics: ShowDiagnostics::Off,
            hide_root: false,
            hide_hidden: false,
            drag_and_drop: false,
            auto_open: AutoOpenSettings { on_create: false, on_paste: false, on_drop: false },
            sort_mode: ProjectPanelSortMode::DirectoriesFirst,
            sort_order: ProjectPanelSortOrder::Default,
            diagnostic_badges: false,
            git_status_indicator: false,
        }
    }
}

impl ProjectPanelSettings {
    /// The settings that hold where nothing else is said. No setting of the panel can be given
    /// by the user.
    pub fn from_settings() -> (settings: ProjectPanelSettings)
        ensures
            settings == default_panel(),
    {
        ProjectPanelSettings::default()
    }
}

/// Tells when the scrollbar of the panel is shown.
#[derive(Clone, Copy, Debug)]
pub struct ProjectPanelScrollbarProxy {}

impl ProjectPanelScrollbarProxy {
    /// When the scrollbar is shown: as the panel's settings say, or else as in the editor.
    pub fn visibility<S>(
        &self,
        panel: &ProjectPanelSettings,
        editor: &EditorSettings<S>,
    ) -> (show: ShowScrollbar)
        ensures
            show == (match panel.scrollbar.show {
                Some(show) => show,
                None => editor.scrollbar.show,
            }),
    {
        match panel.scrollbar.show {
            Some(show) => show,
            None => editor.scrollbar.show,
        }
    }
}

/// Which paths come first, from what the settings say.
pub fn sort_mode(mode: ProjectPanelSortMode) -> (sort: SortMode)
    ensures
        sort == (match mode {
            ProjectPanelSortMode::DirectoriesFirst => SortMode::DirectoriesFirst,
            ProjectPanelSortMode::Mixed => SortMode::Mixed,
            ProjectPanelSortMode::FilesFirst => SortMode::FilesFirst,
        }),
{
    match mode {
        ProjectPanelSortMode::DirectoriesFirst => SortMode::DirectoriesFirst,
        ProjectPanelSortMode::Mixed => SortMode::Mixed,
        ProjectPanelSortMode::FilesFirst => SortMode::FilesFirst,
    }
}

/// How paths are ordered, from what the settings say.
pub fn sort_order(order: ProjectPanelSortOrder) -> (sort: SortOrder)
    ensures
        sort == (match order {
            ProjectPanelSortOrder::Default => SortOrder::Default,
            ProjectPanelSortOrder::Upper => SortOrder::Upper,
            ProjectPanelSortOrder::Lower => SortOrder::Lower,
            ProjectPanelSortOrder::Unicode => SortOrder::Unicode,
        }),
{
    match order {
        ProjectPanelSortOrder::Default => SortOrder::Default,
        ProjectPanelSortOrder::Upper => SortOrder::Upper,
        ProjectPanelSortOrder::Lower => SortOrder::Lower,
        ProjectPanelSortOrder::Unicode => SortOrder::Unicode,
    }
}

/// Without settings of the user, the panel stands on the left and does nothing of itself.
pub proof fn law_panel_starts_from_its_defaults()
    ensures
        ({
            let settings = default_panel();
            &&& !settings.button
            &&& !settings.hide_gitignore
            &&& settings.default_width_hundredths == 0
            &&& settings.dock == DockSide::Left
            &&& settings.entry_spacing == ProjectPanelEntrySpacing::Comfortable
            &&& !settings.file_icons
            &&& !settings.folder_icons
            &&& !settings.git_status
            &&& settings.indent_size_hundredths == 0
            &&& settings.indent_guides.show == ShowIndentGuides::Always
            &&& !settings.sticky_scroll
            &&& !settings.auto_reveal_entries
            &&& !settings.auto_fold_dirs
            &&& !settings.bold_folder_labels
            &&& !settings.starts_open
            &&& settings.scrollbar.show is None
            &&& settings.scrollbar.horizontal_scroll
            &&& settings.show_diagnostics == ShowDiagnostics::Off
            &&& !settings.hide_root
            &&& !settings.hide_hidden
            &&& !settings.drag_and_drop
            &&& !settings.auto_open.on_create
            &&& !settings.auto_open.on_paste
            &&& !settings.auto_open.on_drop
            &&& settings.sort_mode == ProjectPanelSortMode::DirectoriesFirst
            &&& settings.sort_order == ProjectPanelSortOrder::Default
            &&& !settings.diagnostic_badges
            &&& !settings.git_status_indicator
        }),
{
}

} // verus!
