//! The settings of the editor.
use vstd::prelude::*;

use crate::settings_content::CursorShape;

verus! {

/// Whether actions are shown above code.
#[derive(Clone, Copy, Debug, PartialEq, Eq, Structural)]
pub enum CodeLens {
    /// They are.
    On,
    /// They are not.
    Off,
}

impl Default for CodeLens {
    fn default() -> (value: CodeLens)
        ensures
            value == CodeLens::On,
    {
        CodeLens::On
    }
}

/// On which side the details of completions stand.
#[derive(Clone, Copy, Debug, PartialEq, Eq, Structural)]
pub enum CompletionDetailAlignment {
    /// On the left.
    Left,
    /// On the right.
    Right,
}

impl Default for CompletionDetailAlignment {
    fn default() -> (value: CompletionDetailAlignment)
        ensures
            value == CompletionDetailAlignment::Left,
    {
        CompletionDetailAlignment::Left
    }
}

/// Which completions are offered.
#[derive(Clone, Copy, Debug, PartialEq, Eq, Structural)]
pub enum CompletionMenuItemKind {
    /// All.
    All,
    /// Symbols.
    Symbols,
    /// Keywords.
    Keywords,
    /// Types.
    Types,
}

impl Default for CompletionMenuItemKind {
    fn default() -> (value: CompletionMenuItemKind)
        ensures
            value == CompletionMenuItemKind::All,
    {
        CompletionMenuItemKind::All
    }
}

/// How the line of the cursor is highlighted.
#[derive(Clone, Copy, Debug, PartialEq, Eq, Structural)]
pub enum CurrentLineHighlight {
    /// The line.
    Line,
    /// The gutter.
    Gutter,
    /// Both.
    All,
    /// Not at all.
    Nothing,
}

impl Default for CurrentLineHighlight {
    fn default() -> (value: CurrentLineHighlight)
        ensures
            value == CurrentLineHighlight::Line,
    {
        CurrentLineHighlight::Line
    }
}

/// How differences are shown.
#[derive(Clone, Copy, Debug, PartialEq, Eq, Structural)]
pub enum DiffViewStyle {
    /// In one column.
    Unified,
    /// Side by side.
    Split,
}

impl Default for DiffViewStyle {
    fn default() -> (value: DiffViewStyle)
        ensures
            value == DiffViewStyle::Unified,
    {
        DiffViewStyle::Unified
    }
}

/// Which editors show the map.
#[derive(Clone, Copy, Debug, PartialEq, Eq, Structural)]
pub enum DisplayIn {
    /// The active one.
    ActiveEditor,
    /// All.
    AllEditors,
}

impl Default for DisplayIn {
    fn default() -> (value: DisplayIn)
        ensures
            value == DisplayIn::ActiveEditor,
    {
        DisplayIn::ActiveEditor
    }
}

/// How colours in a document are shown.
#[derive(Clone, Copy, Debug, PartialEq, Eq, Structural)]
pub enum DocumentColorsRenderMode {
    /// As a mark next to the text.
    Inlay,
    /// As the background of the text.
    Background,
    /// As a border round the text.
    Border,
    /// In all ways.
    Full,
    /// Not at all.
    Nothing,
}

impl Default for DocumentColorsRenderMode {
    fn default() -> (value: DocumentColorsRenderMode)
        ensures
            value == DocumentColorsRenderMode::Inlay,
    {
        DocumentColorsRenderMode::Inlay
    }
}

/// What a double click in several buffers does.
#[derive(Clone, Copy, Debug, PartialEq, Eq, Structural)]
pub enum DoubleClickInMultibuffer {
    /// It selects.
    Select,
    /// It opens the buffer.
    Open,
}

impl Default for DoubleClickInMultibuffer {
    fn default() -> (value: DoubleClickInMultibuffer)
        ensures
            value == DoubleClickInMultibuffer::Select,
    {
        DoubleClickInMultibuffer::Select
    }
}

/// What happens where no definition is found.
#[derive(Clone, Copy, Debug, PartialEq, Eq, Structural)]
pub enum GoToDefinitionFallback {
    /// The actions above the code are used.
    Lens,
    /// A search is started.
    Search,
    /// Nothing, at any time.
    Never,
    /// Nothing.
    Nothing,
    /// All references are looked for.
    FindAllReferences,
}

impl Default for GoToDefinitionFallback {
    fn default() -> (value: GoToDefinitionFallback)
        ensures
            value == GoToDefinitionFallback::Lens,
    {
        GoToDefinitionFallback::Lens
    }
}

/// Where a definition is scrolled to.
#[derive(Clone, Copy, Debug, PartialEq, Eq, Structural)]
pub enum GoToDefinitionScrollStrategy {
    /// To the middle.
    Center,
    /// As little as possible.
    Minimum,
    /// To the top.
    Top,
    /// To the place of the cursor.
    Preserve,
}

impl Default for GoToDefinitionScrollStrategy {
    fn default() -> (value: GoToDefinitionScrollStrategy)
        ensures
            value == GoToDefinitionScrollStrategy::Center,
    {
        GoToDefinitionScrollStrategy::Center
    }
}

/// When the visible part is marked on the map.
#[derive(Clone, Copy, Debug, PartialEq, Eq, Structural)]
pub enum MinimapThumb {
    /// Always.
    Always,
    /// Under the pointer.
    Hover,
}

impl Default for MinimapThumb {
    fn default() -> (value: MinimapThumb)
        ensures
            value == MinimapThumb::Always,
    {
        MinimapThumb::Always
    }
}

/// The border of the mark on the map.
#[derive(Clone, Copy, Debug, PartialEq, Eq, Structural)]
pub enum MinimapThumbBorder {
    /// On all sides.
    Full,
    /// On the left.
    LeftOnly,
    /// On all sides but the left.
    LeftOpen,
    /// On all sides but the right.
    RightOpen,
    /// Nowhere.
    Nothing,
    /// With round corners.
    Rounded,
    /// With sharp corners.
    Square,
}

impl Default for MinimapThumbBorder {
    fn default() -> (value: MinimapThumbBorder)
        ensures
            value == MinimapThumbBorder::Full,
    {
        MinimapThumbBorder::Full
    }
}

/// The key that adds a cursor.
#[derive(Clone, Copy, Debug, PartialEq, Eq, Structural)]
pub enum MultiCursorModifier {
    /// The alternate key.
    Alt,
    /// The command or the control key.
    CmdOrCtrl,
}

impl Default for MultiCursorModifier {
    fn default() -> (value: MultiCursorModifier)
        ensures
            value == MultiCursorModifier::Alt,
    {
        MultiCursorModifier::Alt
    }
}

/// How far the last line can be scrolled.
#[derive(Clone, Copy, Debug, PartialEq, Eq, Structural)]
pub enum ScrollBeyondLastLine {
    /// By one page.
    OnePage,
    /// Not beyond the end.
    Off,
    /// By the vertical margin.
    VerticalScrollMargin,
}

impl Default for ScrollBeyondLastLine {
    fn default() -> (value: ScrollBeyondLastLine)
        ensures
            value == ScrollBeyondLastLine::OnePage,
    {
        ScrollBeyondLastLine::OnePage
    }
}

/// Which diagnostics the scrollbar marks.
#[derive(Clone, Copy, Debug, PartialEq, Eq, Structural)]
pub enum ScrollbarDiagnostics {
    /// None.
    Nothing,
    /// All.
    All,
    /// Errors.
    Error,
    /// Warnings.
    Warning,
    /// Informations.
    Information,
}

impl Default for ScrollbarDiagnostics {
    fn default() -> (value: ScrollbarDiagnostics)
        ensures
            value == ScrollbarDiagnostics::Nothing,
    {
        ScrollbarDiagnostics::Nothing
    }
}

/// When the map is shown.
#[derive(Clone, Copy, Debug, PartialEq, Eq, Structural)]
pub enum ShowMinimap {
    /// With the scrollbar.
    Auto,
    /// Always.
    Always,
    /// Never.
    Never,
}

impl Default for ShowMinimap {
    fn default() -> (value: ShowMinimap)
        ensures
            value == ShowMinimap::Auto,
    {
        ShowMinimap::Auto
    }
}

/// In which order snippets are offered.
#[derive(Clone, Copy, Debug, PartialEq, Eq, Structural)]
pub enum SnippetSortOrder {
    /// By relevance.
    Relevance,
    /// By name.
    Alphabetical,
    /// By use.
    Frequency,
}

impl Default for SnippetSortOrder {
    fn default() -> (value: SnippetSortOrder)
        ensures
            value == SnippetSortOrder::Relevance,
    {
        SnippetSortOrder::Relevance
    }
}

/// Whether lines are counted from the cursor.
#[derive(Clone, Copy, Debug, PartialEq, Eq, Structural)]
pub enum RelativeLineNumbers {
    /// They are not.
    Disabled,
    /// They are.
    Enabled,
    /// They are, with wrapped lines counted.
    Wrapped,
}

impl Default for RelativeLineNumbers {
    fn default() -> (value: RelativeLineNumbers)
        ensures
            value == RelativeLineNumbers::Disabled,
    {
        RelativeLineNumbers::Disabled
    }
}

/// When a scrollbar is shown, as the settings say it.
#[derive(Clone, Copy, Debug, PartialEq, Eq, Structural)]
pub enum RawShowScrollbar {
    /// While it is used.
    Auto,
    /// As the system wants it.
    System,
    /// Always.
    Always,
    /// Never.
    Never,
}

impl Default for RawShowScrollbar {
    fn default() -> (value: RawShowScrollbar)
        ensures
            value == RawShowScrollbar::Auto,
    {
        RawShowScrollbar::Auto
    }
}

/// When a scrollbar is shown.
#[derive(Clone, Copy, Debug, PartialEq, Eq, Structural)]
pub enum ShowScrollbar {
    /// While it is used.
    Auto,
    /// As the system wants it.
    System,
    /// Always.
    Always,
    /// Never.
    Never,
}

impl Default for ShowScrollbar {
    fn default() -> (value: ShowScrollbar)
        ensures
            value == ShowScrollbar::Auto,
    {
        ShowScrollbar::Auto
    }
}

/// How severe a diagnostic is.
#[derive(Clone, Copy, Debug, PartialEq, Eq, Structural)]
pub enum DiagnosticSeverity {
    /// An error.
    Error,
    /// A warning.
    Warning,
    /// An information.
    Information,
    /// A hint.
    Hint,
}

/// A delay in milliseconds.
#[derive(Clone, Copy, Debug, PartialEq, Eq, Structural)]
pub struct DelayMs(pub u64);

impl Default for DelayMs {
    fn default() -> (value: DelayMs)
        ensures
            value == DelayMs(0),
    {
        DelayMs(0)
    }
}

impl CodeLens {
    /// Whether the actions stand between the lines.
    pub fn inline(&self) -> (inline: bool)
        ensures
            inline == (*self == CodeLens::On),
    {
        *self == CodeLens::On
    }
}

impl RelativeLineNumbers {
    /// Whether lines are counted from the cursor.
    pub fn enabled(&self) -> (enabled: bool)
        ensures
            enabled == (*self != RelativeLineNumbers::Disabled),
    {
        *self != RelativeLineNumbers::Disabled
    }

    /// Whether wrapped lines are counted.
    pub fn wrapped(&self) -> (wrapped: bool)
        ensures
            wrapped == (*self == RelativeLineNumbers::Wrapped),
    {
        *self == RelativeLineNumbers::Wrapped
    }
}

/// Whether notebooks can be run.
#[derive(Clone, Copy, Debug, PartialEq, Eq, Structural)]
pub struct Jupyter {
    /// They can.
    pub enabled: bool,
}

/// Whether the headers of the visible code stay in view.
#[derive(Clone, Copy, Debug, PartialEq, Eq, Structural)]
pub struct StickyScroll {
    /// They do.
    pub enabled: bool,
}

/// What the toolbar shows.
#[derive(Clone, Copy, Debug, PartialEq, Eq, Structural)]
pub struct Toolbar {
    /// Where the cursor is.
    pub breadcrumbs: bool,
    /// Quick actions.
    pub quick_actions: bool,
    /// The menu of selections.
    pub selections_menu: bool,
    /// The review of an agent's changes.
    pub agent_review: bool,
    /// Code actions.
    pub code_actions: bool,
}

/// What the scrollbar shows.
#[derive(Clone, Copy, Debug, PartialEq, Eq, Structural)]
pub struct Scrollbar {
    /// When it is shown.
    pub show: ShowScrollbar,
    /// Changed lines.
    pub git_diff: bool,
    /// Other places of the selected text.
    pub selected_text: bool,
    /// Other places of the selected symbol.
    pub selected_symbol: bool,
    /// What a search found.
    pub search_results: bool,
    /// Diagnostics.
    pub diagnostics: ScrollbarDiagnostics,
    /// Cursors.
    pub cursors: bool,
    /// The axes that have one.
    pub axes: ScrollbarAxes,
}

/// The map next to the text.
#[derive(Clone, Copy, Debug, PartialEq, Eq, Structural)]
pub struct Minimap {
    /// When it is shown.
    pub show: ShowMinimap,
    /// Which editors show it.
    pub display_in: DisplayIn,
    /// When the visible part is marked.
    pub thumb: MinimapThumb,
    /// The border of the mark.
    pub thumb_border: MinimapThumbBorder,
    /// How the line of the cursor is highlighted, where that differs from the text.
    pub current_line_highlight: Option<CurrentLineHighlight>,
    /// The columns that it shows at most, at least one.
    pub max_width_columns: u32,
}

impl Minimap {
    /// The map has at least one column.
    pub open spec fn wf(&self) -> bool {
        self.max_width_columns > 0
    }

    /// Whether the map is ever shown.
    pub fn minimap_enabled(&self) -> (enabled: bool)
        ensures
            enabled == (self.show != ShowMinimap::Never),
    {
        self.show != ShowMinimap::Never
    }

    /// Whether only the active editor shows the map.
    pub fn on_active_editor(&self) -> (active: bool)
        ensures
            active == (self.display_in == DisplayIn::ActiveEditor),
    {
        self.display_in == DisplayIn::ActiveEditor
    }

    /// The map, always shown.
    pub fn with_show_override(self) -> (map: Minimap)
        ensures
            map == (Minimap { show: ShowMinimap::Always, ..self }),
    {
        Minimap { show: ShowMinimap::Always, ..self }
    }
}

/// What the gutter shows.
#[derive(Clone, Copy, Debug, PartialEq, Eq, Structural)]
pub struct Gutter {
    /// The digits for which there is always room.
    pub min_line_number_digits: usize,
    /// Line numbers.
    pub line_numbers: bool,
    /// What can be run.
    pub runnables: bool,
    /// Breakpoints.
    pub breakpoints: bool,
    /// Bookmarks.
    pub bookmarks: bool,
    /// What can be folded.
    pub folds: bool,
}

/// The axes that have a scrollbar, where the other settings show one.
#[derive(Clone, Copy, Debug, PartialEq, Eq, Structural)]
pub struct ScrollbarAxes {
    /// The horizontal one.
    pub horizontal: bool,
    /// The vertical one.
    pub vertical: bool,
}

/// Whether a selection can be dragged.
#[derive(Clone, Copy, Debug, PartialEq, Eq, Structural)]
pub struct DragAndDropSelection {
    /// It can.
    pub enabled: bool,
    /// How long the button has to be held before.
    pub delay: DelayMs,
}

impl Default for DragAndDropSelection {
    fn default() -> (value: DragAndDropSelection)
        ensures
            value.enabled,
            value.delay == DelayMs(300),
    {
        DragAndDropSelection { enabled: true, delay: DelayMs(300) }
    }
}

/// How a search starts.
#[derive(Clone, Copy, Debug, PartialEq, Eq, Structural)]
pub struct SearchSettings {
    /// Whether there is a button for it.
    pub button: bool,
    /// Whether only whole words count.
    pub whole_word: bool,
    /// Whether the case of letters counts.
    pub case_sensitive: bool,
    /// Whether ignored files are searched.
    pub include_ignored: bool,
    /// Whether the query is a regular expression.
    pub regex: bool,
    /// Whether what is found comes to the middle.
    pub center_on_match: bool,
}

impl Default for SearchSettings {
    fn default() -> (value: SearchSettings)
        ensures
            value == (SearchSettings {
                button: false,
                whole_word: false,
                case_sensitive: false,
                include_ignored: false,
                regex: false,
                center_on_match: false,
            }),
    {
        SearchSettings {
            button: false,
            whole_word: false,
            case_sensitive: false,
            include_ignored: false,
            regex: false,
            center_on_match: false,
        }
    }
}

/// The settings of the editor. What decides when a search starts with the text at the cursor is
/// a setting of the workspace, of type `S`.
#[derive(Clone, Copy, Debug)]
pub struct EditorSettings<S> {
    /// Whether the cursor blinks.
    pub cursor_blink: bool,
    /// The shape of the cursor.
    pub cursor_shape: Option<CursorShape>,
    /// How the line of the cursor is highlighted.
    pub current_line_highlight: CurrentLineHighlight,
    /// Whether other places of the selected text are highlighted.
    pub selection_highlight: bool,
    /// Whether selections have round corners.
    pub rounded_selection: bool,
    /// How long the cursor rests before references are highlighted.
    pub lsp_highlight_debounce: DelayMs,
    /// Whether help is shown under the pointer.
    pub hover_popover_enabled: bool,
    /// How long the pointer rests before that.
    pub hover_popover_delay: DelayMs,
    /// Whether the help stays while the pointer moves to it.
    pub hover_popover_sticky: bool,
    /// How long it then stays.
    pub hover_popover_hiding_delay: DelayMs,
    /// What the toolbar shows.
    pub toolbar: Toolbar,
    /// What the scrollbar shows.
    pub scrollbar: Scrollbar,
    /// The map next to the text.
    pub minimap: Minimap,
    /// What the gutter shows.
    pub gutter: Gutter,
    /// How far the last line can be scrolled.
    pub scroll_beyond_last_line: ScrollBeyondLastLine,
    /// The lines kept in view above and below the cursor, in hundredths.
    pub vertical_scroll_margin_hundredths: u32,
    /// Whether a click near an edge scrolls.
    pub autoscroll_on_clicks: bool,
    /// The columns kept in view beside the cursor, in hundredths.
    pub horizontal_scroll_margin_hundredths: u32,
    /// How far one turn of the wheel scrolls, in hundredths.
    pub scroll_sensitivity_hundredths: u32,
    /// Whether the wheel changes the size of the text.
    pub mouse_wheel_zoom: bool,
    /// How far it scrolls with a key held, in hundredths.
    pub fast_scroll_sensitivity_hundredths: u32,
    /// Whether the headers of the visible code stay in view.
    pub sticky_scroll: StickyScroll,
    /// Whether lines are counted from the cursor.
    pub relative_line_numbers: RelativeLineNumbers,
    /// When a search starts with the text at the cursor.
    pub seed_search_query_from_cursor: S,
    /// Whether capital letters in a query count.
    pub use_smartcase_search: bool,
    /// The key that adds a cursor.
    pub multi_cursor_modifier: MultiCursorModifier,
    /// Whether private values are hidden.
    pub redact_private_values: bool,
    /// By how many lines an excerpt grows.
    pub expand_excerpt_lines: u32,
    /// How many lines an excerpt shows around its match.
    pub excerpt_context_lines: u32,
    /// Whether the middle button pastes.
    pub middle_click_paste: bool,
    /// What a double click in several buffers does.
    pub double_click_in_multibuffer: DoubleClickInMultibuffer,
    /// Whether a search starts again at the end.
    pub search_wrap: bool,
    /// How a search starts.
    pub search: SearchSettings,
    /// Whether the parameters of a call are shown by themselves.
    pub auto_signature_help: bool,
    /// Whether they are shown after edits.
    pub show_signature_help_after_edits: bool,
    /// What happens where no definition is found.
    pub go_to_definition_fallback: GoToDefinitionFallback,
    /// Where a definition is scrolled to.
    pub go_to_definition_scroll_strategy: GoToDefinitionScrollStrategy,
    /// Whether notebooks can be run.
    pub jupyter: Jupyter,
    /// In which order snippets are offered.
    pub snippet_sort_order: SnippetSortOrder,
    /// The least severe diagnostic that is shown.
    pub diagnostics_max_severity: Option<DiagnosticSeverity>,
    /// Whether code actions are offered in the line.
    pub inline_code_actions: bool,
    /// Whether a selection can be dragged.
    pub drag_and_drop_selection: DragAndDropSelection,
    /// Whether actions are shown above code.
    pub code_lens: CodeLens,
    /// How colours in a document are shown.
    pub lsp_document_colors: DocumentColorsRenderMode,
    /// Whether links in a document are shown.
    pub lsp_document_links: bool,
    /// The least contrast of highlighted text, in hundredths.
    pub minimum_contrast_for_highlights_hundredths: u32,
    /// When the list of completions has a scrollbar.
    pub completion_menu_scrollbar: ShowScrollbar,
    /// On which side the details of completions stand.
    pub completion_detail_alignment: CompletionDetailAlignment,
    /// Which completions are offered.
    pub completion_menu_item_kind: CompletionMenuItemKind,
    /// How differences are shown.
    pub diff_view_style: DiffViewStyle,
    /// The least width for showing them side by side, in hundredths of a pixel.
    pub minimum_split_diff_width_hundredths: u32,
}

/// The settings that hold where nothing else is said.
pub open spec fn default_settings<S>(seed_search_query_from_cursor: S) -> EditorSettings<S> {
    EditorSettings {
        cursor_blink: true,
        cursor_shape: None,
        current_line_highlight: CurrentLineHighlight::Line,
        selection_highlight: true,
        rounded_selection: true,
        lsp_highlight_debounce: DelayMs(100),
        hover_popover_enabled: true,
        hover_popover_delay: DelayMs(50),
        hover_popover_sticky: true,
        hover_popover_hiding_delay: DelayMs(100),
        toolbar: Toolbar {
            breadcrumbs: true,
            quick_actions: true,
            selections_menu: true,
            agent_review: true,
            code_actions: true,
        },
        scrollbar: Scrollbar {
            show: ShowScrollbar::Auto,
            git_diff: true,
            selected_text: true,
            selected_symbol: true,
            search_results: true,
            diagnostics: ScrollbarDiagnostics::Nothing,
            cursors: true,
            axes: ScrollbarAxes { horizontal: true, vertical: true },
        },
        minimap: Minimap {
            show: ShowMinimap::Auto,
            display_in: DisplayIn::ActiveEditor,
            thumb: MinimapThumb::Always,
            thumb_border: MinimapThumbBorder::Full,
            current_line_highlight: None,
            max_width_columns: 128,
        },
        gutter: Gutter {
            min_line_number_digits: 2,
            line_numbers: true,
            runnables: true,
            breakpoints: true,
            bookmarks: true,
            folds: true,
        },
        scroll_beyond_last_line: ScrollBeyondLastLine::OnePage,
        vertical_scroll_margin_hundredths: 0,
        autoscroll_on_clicks: true,
        horizontal_scroll_margin_hundredths: 0,
        scroll_sensitivity_hundredths: 100,
        mouse_wheel_zoom: false,
        fast_scroll_sensitivity_hundredths: 200,
        sticky_scroll: StickyScroll { enabled: false },
        relative_line_numbers: RelativeLineNumbers::Disabled,
        seed_search_query_from_cursor,
        use_smartcase_search: true,
        multi_cursor_modifier: MultiCursorModifier::Alt,
        redact_private_values: false,
        expand_excerpt_lines: 3,
        excerpt_context_lines: 3,
        middle_click_paste: false,
        double_click_in_multibuffer: DoubleClickInMultibuffer::Select,
        search_wrap: true,
        search: SearchSettings {
            button: true,
            whole_word: false,
            case_sensitive: false,
            include_ignored: false,
            regex: false,
            center_on_match: true,
        },
        auto_signature_help: true,
        show_signature_help_after_edits: false,
        go_to_definition_fallback: GoToDefinitionFallback::Lens,
        go_to_definition_scroll_strategy: GoToDefinitionScrollStrategy::Center,
        jupyter: Jupyter { enabled: true },
        snippet_sort_order: SnippetSortOrder::Relevance,
        diagnostics_max_severity: None,
        inline_code_actions: false,
        drag_and_drop_selection: DragAndDropSelection { enabled: true, delay: DelayMs(300) },
        code_lens: CodeLens::On,
        lsp_document_colors: DocumentColorsRenderMode::Inlay,
        lsp_document_links: true,
        minimum_contrast_for_highlights_hundredths: 15,
        completion_menu_scrollbar: ShowScrollbar::Auto,
        completion_detail_alignment: CompletionDetailAlignment::Left,
        completion_menu_item_kind: CompletionMenuItemKind::All,
        diff_view_style: DiffViewStyle::Unified,
        minimum_split_diff_width_hundredths: 48000,
    }
}

impl<S> EditorSettings<S> {
    /// The settings that hold where nothing else is said. No setting of the editor can be given
    /// by the user.
    pub fn from_settings(seed_search_query_from_cursor: S) -> (settings: EditorSettings<S>)
        ensures
            settings == default_settings(seed_search_query_from_cursor),
            settings.minimap.wf(),
    {
        EditorSettings {
            cursor_blink: true,
            cursor_shape: None,
            current_line_highlight: CurrentLineHighlight::Line,
            selection_highlight: true,
            rounded_selection: true,
            lsp_highlight_debounce: DelayMs(100),
            hover_popover_enabled: true,
            hover_popover_delay: DelayMs(50),
            hover_popover_sticky: true,
            hover_popover_hiding_delay: DelayMs(100),
            toolbar: Toolbar {
                breadcrumbs: true,
                quick_actions: true,
                selections_menu: true,
                agent_review: true,
                code_actions: true,
            },
            scrollbar: Scrollbar {
                show: ShowScrollbar::Auto,
                git_diff: true,
                selected_text: true,
                selected_symbol: true,
                search_results: true,
                diagnostics: ScrollbarDiagnostics::Nothing,
                cursors: true,
                axes: ScrollbarAxes { horizontal: true, vertical: true },
            },
            minimap: Minimap {
                show: ShowMinimap::Auto,
                display_in: DisplayIn::ActiveEditor,
                thumb: MinimapThumb::Always,
                thumb_border: MinimapThumbBorder::Full,
                current_line_highlight: None,
                max_width_columns: 128,
            },
            gutter: Gutter {
                min_line_number_digits: 2,
                line_numbers: true,
                runnables: true,
                breakpoints: true,
                bookmarks: true,
                folds: true,
            },
            scroll_beyond_last_line: ScrollBeyondLastLine::OnePage,
            vertical_scroll_margin_hundredths: 0,
            autoscroll_on_clicks: true,
            horizontal_scroll_margin_hundredths: 0,
            scroll_sensitivity_hundredths: 100,
            mouse_wheel_zoom: false,
            fast_scroll_sensitivity_hundredths: 200,
            sticky_scroll: StickyScroll { enabled: false },
            relative_line_numbers: RelativeLineNumbers::Disabled,
            seed_search_query_from_cursor,
            use_smartcase_search: true,
            multi_cursor_modifier: MultiCursorModifier::Alt,
            redact_private_values: false,
            expand_excerpt_lines: 3,
            excerpt_context_lines: 3,
            middle_click_paste: false,
            double_click_in_multibuffer: DoubleClickInMultibuffer::Select,
            search_wrap: true,
            search: SearchSettings {
                button: true,
                whole_word: false,
                case_sensitive: false,
                include_ignored: false,
                regex: false,
                center_on_match: true,
            },
            auto_signature_help: true,
            show_signature_help_after_edits: false,
            go_to_definition_fallback: GoToDefinitionFallback::Lens,
            go_to_definition_scroll_strategy: GoToDefinitionScrollStrategy::Center,
            jupyter: Jupyter { enabled: true },
            snippet_sort_order: SnippetSortOrder::Relevance,
            diagnostics_max_severity: None,
            inline_code_actions: false,
            drag_and_drop_selection: DragAndDropSelection { enabled: true, delay: DelayMs(300) },
            code_lens: CodeLens::On,
            lsp_document_colors: DocumentColorsRenderMode::Inlay,
            lsp_document_links: true,
            minimum_contrast_for_highlights_hundredths: 15,
            completion_menu_scrollbar: ShowScrollbar::Auto,
            completion_detail_alignment: CompletionDetailAlignment::Left,
            completion_menu_item_kind: CompletionMenuItemKind::All,
            diff_view_style: DiffViewStyle::Unified,
            minimum_split_diff_width_hundredths: 48000,
        }
    }

    /// Whether notebooks can be run.
    pub fn jupyter_enabled(&self) -> (enabled: bool)
        ensures
            enabled == self.jupyter.enabled,
    {
        self.jupyter.enabled
    }
}

/// Tells when the scrollbar of the editor is shown.
#[derive(Clone, Copy, Debug)]
pub struct EditorSettingsScrollbarProxy {}

impl EditorSettingsScrollbarProxy {
    /// When the scrollbar is shown.
    pub fn visibility<S>(&self, settings: &EditorSettings<S>) -> (show: ShowScrollbar)
        ensures
            show == settings.scrollbar.show,
    {
        settings.scrollbar.show
    }
}

/// When a scrollbar is shown, from what the settings say.
pub fn ui_scrollbar_settings_from_raw(value: RawShowScrollbar) -> (show: ShowScrollbar)
    ensures
        show == (match value {
            RawShowScrollbar::Auto => ShowScrollbar::Auto,
            RawShowScrollbar::System => ShowScrollbar::System,
            RawShowScrollbar::Always => ShowScrollbar::Always,
            RawShowScrollbar::Never => ShowScrollbar::Never,
        }),
{
    match value {
        RawShowScrollbar::Auto => ShowScrollbar::Auto,
        RawShowScrollbar::System => ShowScrollbar::System,
        RawShowScrollbar::Always => ShowScrollbar::Always,
        RawShowScrollbar::Never => ShowScrollbar::Never,
    }
}

/// Without settings of the user, an editor shows everything, waits briefly and changes little.
pub proof fn law_editor_starts_from_its_defaults<S>(seed_search_query_from_cursor: S)
    ensures
        ({
            let settings = default_settings(seed_search_query_from_cursor);
            &&& settings.cursor_blink
            &&& settings.cursor_shape is None
            &&& settings.current_line_highlight == CurrentLineHighlight::Line
            &&& settings.selection_highlight
            &&& settings.rounded_selection
            &&& settings.lsp_highlight_debounce == DelayMs(100)
            &&& settings.hover_popover_enabled
            &&& settings.hover_popover_delay == DelayMs(50)
            &&& settings.hover_popover_sticky
            &&& settings.hover_popover_hiding_delay == DelayMs(100)
            &&& settings.toolbar.breadcrumbs
            &&& settings.toolbar.quick_actions
            &&& settings.toolbar.selections_menu
            &&& settings.toolbar.agent_review
            &&& settings.toolbar.code_actions
            &&& settings.scrollbar.show == ShowScrollbar::Auto
            &&& settings.scrollbar.git_diff
            &&& settings.scrollbar.selected_text
            &&& settings.scrollbar.selected_symbol
            &&& settings.scrollbar.search_results
            &&& settings.scrollbar.diagnostics == ScrollbarDiagnostics::Nothing
            &&& settings.scrollbar.cursors
            &&& settings.scrollbar.axes.horizontal
            &&& settings.scrollbar.axes.vertical
            &&& settings.minimap.show == ShowMinimap::Auto
            &&& settings.minimap.display_in == DisplayIn::ActiveEditor
            &&& settings.minimap.thumb == MinimapThumb::Always
            &&& settings.minimap.thumb_border == MinimapThumbBorder::Full
            &&& settings.minimap.current_line_highlight is None
            &&& settings.minimap.max_width_columns == 128
            &&& settings.gutter.min_line_number_digits == 2
            &&& settings.gutter.line_numbers
            &&& settings.gutter.runnables
            &&& settings.gutter.breakpoints
            &&& settings.gutter.bookmarks
            &&& settings.gutter.folds
            &&& settings.scroll_beyond_last_line == ScrollBeyondLastLine::OnePage
            &&& settings.vertical_scroll_margin_hundredths == 0
            &&& settings.autoscroll_on_clicks
            &&& settings.horizontal_scroll_margin_hundredths == 0
            &&& settings.scroll_sensitivity_hundredths == 100
            &&& !settings.mouse_wheel_zoom
            &&& settings.fast_scroll_sensitivity_hundredths == 200
            &&& !settings.sticky_scroll.enabled
            &&& settings.relative_line_numbers == RelativeLineNumbers::Disabled
            &&& settings.seed_search_query_from_cursor == seed_search_query_from_cursor
            &&& settings.use_smartcase_search
            &&& settings.multi_cursor_modifier == MultiCursorModifier::Alt
            &&& !settings.redact_private_values
            &&& settings.expand_excerpt_lines == 3
            &&& settings.excerpt_context_lines == 3
            &&& !settings.middle_click_paste
            &&& settings.double_click_in_multibuffer == DoubleClickInMultibuffer::Select
            &&& settings.search_wrap
            &&& settings.search.button
            &&& !settings.search.whole_word
            &&& !settings.search.case_sensitive
            &&& !settings.search.include_ignored
            &&& !settings.search.regex
            &&& settings.search.center_on_match
            &&& settings.auto_signature_help
            &&& !settings.show_signature_help_after_edits
            &&& settings.go_to_definition_fallback == GoToDefinitionFallback::Lens
            &&& settings.go_to_definition_scroll_strategy == GoToDefinitionScrollStrategy::Center
            &&& settings.jupyter.enabled
            &&& settings.snippet_sort_order == SnippetSortOrder::Relevance
            &&& settings.diagnostics_max_severity is None
            &&& !settings.inline_code_actions
            &&& settings.drag_and_drop_selection.enabled
            &&& settings.drag_and_drop_selection.delay == DelayMs(300)
            &&& settings.code_lens == CodeLens::On
            &&& settings.lsp_document_colors == DocumentColorsRenderMode::Inlay
            &&& settings.lsp_document_links
            &&& settings.minimum_contrast_for_highlights_hundredths == 15
            &&& settings.completion_menu_scrollbar == ShowScrollbar::Auto
            &&& settings.completion_detail_alignment == CompletionDetailAlignment::Left
            &&& settings.completion_menu_item_kind == CompletionMenuItemKind::All
            &&& settings.diff_view_style == DiffViewStyle::Unified
            &&& settings.minimum_split_diff_width_hundredths == 48000
        }),
{
}

} // verus!
