//! What a user can say in the settings.
use vstd::prelude::*;
use vstd::string::*;

use crate::text::same_text;
use crate::text_map::TextMap;

verus! {

/// How reading the settings ended.
#[derive(Debug, Clone, PartialEq, Eq)]
pub enum ParseStatus {
    /// They were read.
    Success,
    /// They did not change and were not read again.
    Unchanged,
    /// They could not be read.
    Failed {
        /// Why.
        error: String,
    },
}

/// Settings that can be read from text.
pub trait RootUserSettings: Sized {
    /// Reads as much of the settings as is sound, and says how that ended.
    fn parse_json(json: &str) -> (Option<Self>, ParseStatus);

    /// Reads the settings from text with comments, or says why they are not sound.
    fn parse_json_with_comments(json: &str) -> Result<Self, String>;
}

/// When typing hides the pointer.
#[derive(Clone, Copy, Debug, PartialEq, Eq, Structural)]
pub enum HideMouseMode {
    /// Never.
    Never,
    /// While text is typed.
    OnTyping,
    /// While text is typed and on commands.
    OnTypingAndAction,
}

impl Default for HideMouseMode {
    fn default() -> (value: HideMouseMode)
        ensures
            value == HideMouseMode::OnTypingAndAction,
    {
        HideMouseMode::OnTypingAndAction
    }
}

/// How wide the file finder is.
#[derive(Clone, Copy, Debug, PartialEq, Eq, Structural)]
pub enum FileFinderWidthContent {
    /// Small.
    Small,
    /// Medium.
    Medium,
    /// Large.
    Large,
    /// Very large.
    XLarge,
    /// As wide as the window.
    Full,
}

impl Default for FileFinderWidthContent {
    fn default() -> (value: FileFinderWidthContent)
        ensures
            value == FileFinderWidthContent::Small,
    {
        FileFinderWidthContent::Small
    }
}

/// What a profile starts from.
#[derive(Clone, Copy, Debug, PartialEq, Eq, Structural)]
pub enum ProfileBase {
    /// The settings of the user.
    User,
    /// The settings that hold where nothing else is said.
    Default,
}

impl Default for ProfileBase {
    fn default() -> (value: ProfileBase)
        ensures
            value == ProfileBase::User,
    {
        ProfileBase::User
    }
}

/// The key bindings to start from.
#[derive(Clone, Copy, Debug, PartialEq, Eq, Structural)]
pub enum BaseKeymapContent {
    /// Those of VSCode.
    VSCode,
    /// Those of JetBrains.
    JetBrains,
    /// Those of SublimeText.
    SublimeText,
    /// Those of Vim.
    Vim,
    /// Those of Zed.
    Zed,
    /// Those of Helix.
    Helix,
    /// Those of Atom.
    Atom,
    /// Those of TextMate.
    TextMate,
    /// Those of Emacs.
    Emacs,
    /// Those of Cursor.
    Cursor,
    /// None.
    Nothing,
}

impl Default for BaseKeymapContent {
    fn default() -> (value: BaseKeymapContent)
        ensures
            value == BaseKeymapContent::VSCode,
    {
        BaseKeymapContent::VSCode
    }
}

/// Where long lines are wrapped.
#[derive(Clone, Copy, Debug, PartialEq, Eq, Structural)]
pub enum SoftWrap {
    /// Nowhere.
    Nothing,
    /// At the end of a line.
    PreferLine,
    /// At the edge of the editor.
    EditorWidth,
    /// At the edge or at a column, whichever comes first.
    Bounded,
}

impl Default for SoftWrap {
    fn default() -> (value: SoftWrap)
        ensures
            value == SoftWrap::Nothing,
    {
        SoftWrap::Nothing
    }
}

/// The shape of the cursor.
#[derive(Clone, Copy, Debug, PartialEq, Eq, Structural)]
pub enum CursorShape {
    /// A bar.
    Bar,
    /// A block.
    Block,
    /// A line below.
    Underline,
    /// A frame.
    Hollow,
}

impl Default for CursorShape {
    fn default() -> (value: CursorShape)
        ensures
            value == CursorShape::Block,
    {
        CursorShape::Block
    }
}

/// How guides of indentation are coloured.
#[derive(Clone, Copy, Debug, PartialEq, Eq, Structural)]
pub enum IndentGuideColoring {
    /// All alike.
    SingleHue,
    /// Each level for itself.
    DistinctHues,
    /// Not at all.
    Disabled,
}

impl Default for IndentGuideColoring {
    fn default() -> (value: IndentGuideColoring)
        ensures
            value == IndentGuideColoring::SingleHue,
    {
        IndentGuideColoring::SingleHue
    }
}

/// How the space between guides is coloured.
#[derive(Clone, Copy, Debug, PartialEq, Eq, Structural)]
pub enum IndentGuideBackgroundColoring {
    /// Not at all.
    Off,
    /// At the active level.
    Active,
}

impl Default for IndentGuideBackgroundColoring {
    fn default() -> (value: IndentGuideBackgroundColoring)
        ensures
            value == IndentGuideBackgroundColoring::Off,
    {
        IndentGuideBackgroundColoring::Off
    }
}

/// Where foldable ranges come from.
#[derive(Clone, Copy, Debug, PartialEq, Eq, Structural)]
pub enum DocumentFoldingRanges {
    /// From the syntax and the indentation.
    TreeSitterAndIndent,
    /// From a language server.
    LanguageServer,
}

impl Default for DocumentFoldingRanges {
    fn default() -> (value: DocumentFoldingRanges)
        ensures
            value == DocumentFoldingRanges::TreeSitterAndIndent,
    {
        DocumentFoldingRanges::TreeSitterAndIndent
    }
}

/// Where symbols come from.
#[derive(Clone, Copy, Debug, PartialEq, Eq, Structural)]
pub enum DocumentSymbols {
    /// From the syntax.
    TreeSitter,
    /// From a language server.
    LanguageServer,
}

impl Default for DocumentSymbols {
    fn default() -> (value: DocumentSymbols)
        ensures
            value == DocumentSymbols::TreeSitter,
    {
        DocumentSymbols::TreeSitter
    }
}

/// Whether meanings are highlighted.
#[derive(Clone, Copy, Debug, PartialEq, Eq, Structural)]
pub enum SemanticTokens {
    /// They are not.
    Off,
    /// They are.
    On,
    /// They are, beside the syntax.
    TreeSitterFallback,
}

impl Default for SemanticTokens {
    fn default() -> (value: SemanticTokens)
        ensures
            value == SemanticTokens::Off,
    {
        SemanticTokens::Off
    }
}

/// When lines are indented.
#[derive(Clone, Copy, Debug, PartialEq, Eq, Structural)]
pub enum AutoIndentMode {
    /// Always.
    On,
    /// Never.
    Off,
    /// When they are formatted.
    OnFormatting,
    /// When they are typed.
    OnTyping,
    /// As the syntax wants it.
    SyntaxAware,
    /// Not at all.
    Nothing,
}

impl Default for AutoIndentMode {
    fn default() -> (value: AutoIndentMode)
        ensures
            value == AutoIndentMode::On,
    {
        AutoIndentMode::On
    }
}

/// Whether a file is formatted when it is saved.
#[derive(Clone, Copy, Debug, PartialEq, Eq, Structural)]
pub enum FormatOnSave {
    /// It is not.
    Off,
    /// It is.
    On,
    /// It is, with the actions of a language server.
    OnWithExtraLspActions,
}

impl Default for FormatOnSave {
    fn default() -> (value: FormatOnSave)
        ensures
            value == FormatOnSave::Off,
    {
        FormatOnSave::Off
    }
}

/// Which white space is shown.
#[derive(Clone, Copy, Debug, PartialEq, Eq, Structural)]
pub enum ShowWhitespaceSetting {
    /// In selections.
    Selected,
    /// All.
    All,
    /// None.
    Off,
    /// At the end of lines.
    Trailing,
}

impl Default for ShowWhitespaceSetting {
    fn default() -> (value: ShowWhitespaceSetting)
        ensures
            value == ShowWhitespaceSetting::Selected,
    {
        ShowWhitespaceSetting::Selected
    }
}

/// Whether words of the file are offered as completions.
#[derive(Clone, Copy, Debug, PartialEq, Eq, Structural)]
pub enum WordsCompletionMode {
    /// They are.
    Enabled,
    /// Only what a language server offers.
    LspOnly,
    /// They are not.
    Disabled,
}

impl Default for WordsCompletionMode {
    fn default() -> (value: WordsCompletionMode)
        ensures
            value == WordsCompletionMode::Enabled,
    {
        WordsCompletionMode::Enabled
    }
}

/// How lines end.
#[derive(Clone, Copy, Debug, PartialEq, Eq, Structural)]
pub enum LineEndingSetting {
    /// As in the file.
    Auto,
    /// With a line feed.
    Lf,
    /// With a carriage return and a line feed.
    Crlf,
    /// With a line feed, whatever the file has.
    EnforceLf,
    /// With both, whatever the file has.
    EnforceCrlf,
}

impl Default for LineEndingSetting {
    fn default() -> (value: LineEndingSetting)
        ensures
            value == LineEndingSetting::Auto,
    {
        LineEndingSetting::Auto
    }
}

/// How a completion is inserted.
#[derive(Clone, Copy, Debug, PartialEq, Eq, Structural)]
pub enum LspInsertMode {
    /// With its placeholders.
    AsSnippet,
    /// As text.
    AsPlainText,
}

impl Default for LspInsertMode {
    fn default() -> (value: LspInsertMode)
        ensures
            value == LspInsertMode::AsSnippet,
    {
        LspInsertMode::AsSnippet
    }
}

/// Which hints are shown in the text.
#[derive(Clone, Copy, Debug, PartialEq, Eq, Hash, Structural)]
pub enum InlayHintKind {
    /// All.
    All,
    /// Those of parameters, and no others.
    OnlyParameters,
    /// Those of types, and no others.
    OnlyTypes,
    /// None.
    Off,
    /// A hint of a type.
    Type,
    /// A hint of a parameter.
    Parameter,
}

impl Default for InlayHintKind {
    fn default() -> (value: InlayHintKind)
        ensures
            value == InlayHintKind::All,
    {
        InlayHintKind::All
    }
}

/// When paragraphs can be wrapped anew.
#[derive(Clone, Copy, Debug, PartialEq, Eq, Structural)]
pub enum RewrapBehavior {
    /// Always.
    Enabled,
    /// In modal editing.
    VimModeOnly,
    /// Never.
    Disabled,
}

impl Default for RewrapBehavior {
    fn default() -> (value: RewrapBehavior)
        ensures
            value == RewrapBehavior::Enabled,
    {
        RewrapBehavior::Enabled
    }
}

/// Who predicts edits.
#[derive(Clone, Copy, Debug, PartialEq, Eq, Structural)]
pub enum EditPredictionProvider {
    /// Nobody.
    Nothing,
    /// Copilot.
    Copilot,
    /// Codestral.
    Codestral,
    /// A server of the common interface.
    OpenAiCompatible,
}

impl Default for EditPredictionProvider {
    fn default() -> (value: EditPredictionProvider)
        ensures
            value == EditPredictionProvider::Nothing,
    {
        EditPredictionProvider::Nothing
    }
}

/// How predictions are shown.
#[derive(Clone, Copy, Debug, PartialEq, Eq, Structural)]
pub enum EditPredictionsMode {
    /// Not at all.
    Off,
    /// In the text.
    Inline,
    /// Beside the text.
    Preview,
}

impl Default for EditPredictionsMode {
    fn default() -> (value: EditPredictionsMode)
        ensures
            value == EditPredictionsMode::Off,
    {
        EditPredictionsMode::Off
    }
}

/// Whether predictions may be kept for training.
#[derive(Clone, Copy, Debug, PartialEq, Eq, Structural)]
pub enum EditPredictionDataCollectionChoice {
    /// They may.
    Allow,
    /// They may not.
    Disallow,
}

impl Default for EditPredictionDataCollectionChoice {
    fn default() -> (value: EditPredictionDataCollectionChoice)
        ensures
            value == EditPredictionDataCollectionChoice::Allow,
    {
        EditPredictionDataCollectionChoice::Allow
    }
}

/// How a model is asked.
#[derive(Clone, Copy, Debug, PartialEq, Eq, Structural)]
#[allow(non_camel_case_types)]
pub enum EditPredictionPromptFormatContent {
    /// As Context expects it.
    Context,
    /// As Zeta1 expects it.
    Zeta1,
    /// As Zeta2 expects it.
    Zeta2,
    /// As Zeta3 expects it.
    Zeta3,
    /// As Infer expects it.
    Infer,
    /// As Zeta expects it.
    Zeta,
    /// As Zeta2_1 expects it.
    Zeta2_1,
    /// As CodeLlama expects it.
    CodeLlama,
    /// As StarCoder expects it.
    StarCoder,
    /// As DeepseekCoder expects it.
    DeepseekCoder,
    /// As Qwen expects it.
    Qwen,
    /// As CodeGemma expects it.
    CodeGemma,
    /// As Codestral expects it.
    Codestral,
    /// As Glm expects it.
    Glm,
}

impl Default for EditPredictionPromptFormatContent {
    fn default() -> (value: EditPredictionPromptFormatContent)
        ensures
            value == EditPredictionPromptFormatContent::Context,
    {
        EditPredictionPromptFormatContent::Context
    }
}

/// Who hosts a repository.
#[derive(Clone, Copy, Debug, PartialEq, Eq, Structural)]
pub enum GitHostingProviderKind {
    /// Github.
    Github,
    /// Gitlab.
    Gitlab,
    /// Bitbucket.
    Bitbucket,
    /// Gitea.
    Gitea,
    /// Forgejo.
    Forgejo,
    /// SourceHut.
    SourceHut,
}

impl Default for GitHostingProviderKind {
    fn default() -> (value: GitHostingProviderKind)
        ensures
            value == GitHostingProviderKind::Github,
    {
        GitHostingProviderKind::Github
    }
}

/// The settings of diagnostics.
#[derive(Clone, Copy, Debug, PartialEq, Eq, Structural)]
pub struct DiagnosticsSettingsContent {
    /// Whether the status bar has a button for them.
    pub button: bool,
}

impl Default for DiagnosticsSettingsContent {
    fn default() -> (value: DiagnosticsSettingsContent)
        ensures
            !value.button,
    {
        DiagnosticsSettingsContent {
            button: false,
        }
    }
}

/// The settings of the file finder.
#[derive(Clone, Copy, Debug, PartialEq, Eq, Structural)]
pub struct FileFinderSettingsContent {
    /// Whether files have icons.
    pub file_icons: bool,
    /// How wide it is at most.
    pub modal_max_width: Option<FileFinderWidthContent>,
    /// Whether the active file is passed over.
    pub skip_focus_for_active_in_search: bool,
}

impl Default for FileFinderSettingsContent {
    fn default() -> (value: FileFinderSettingsContent)
        ensures
            !value.file_icons,
            value.modal_max_width is None,
            !value.skip_focus_for_active_in_search,
    {
        FileFinderSettingsContent {
            file_icons: false,
            modal_max_width: None,
            skip_focus_for_active_in_search: false,
        }
    }
}

/// The settings of remote connections.
#[derive(Debug)]
pub struct RemoteSettingsContent {
    /// Where the server lies on the remote host.
    pub remote_server_path: Option<String>,
    /// Whether it is installed there where it is missing.
    pub auto_install: bool,
}

impl Default for RemoteSettingsContent {
    fn default() -> (value: RemoteSettingsContent)
        ensures
            value.remote_server_path is None,
            value.auto_install,
    {
        RemoteSettingsContent {
            remote_server_path: None,
            auto_install: true,
        }
    }
}

/// What may be reported.
#[derive(Clone, Copy, Debug, PartialEq, Eq, Structural)]
pub struct TelemetrySettingsContent {
    /// Crashes and the like.
    pub diagnostics: bool,
    /// What the user does.
    pub events: bool,
    /// How long things take.
    pub metrics: bool,
}

impl Default for TelemetrySettingsContent {
    fn default() -> (value: TelemetrySettingsContent)
        ensures
            value.diagnostics,
            value.events,
            value.metrics,
    {
        TelemetrySettingsContent {
            diagnostics: true,
            events: true,
            metrics: true,
        }
    }
}

/// Features that are switched by hand.
#[derive(Debug)]
pub struct FeatureFlagsMap {
    /// The values by the names of the features.
    pub flags: TextMap<String>,
}

/// A switch that no later setting can turn off again.
#[derive(Clone, Copy, Debug, PartialEq, Eq, Structural)]
pub struct SaturatingBool(pub bool);

impl Default for SaturatingBool {
    fn default() -> (value: SaturatingBool)
        ensures
            value == SaturatingBool(false),
    {
        SaturatingBool(false)
    }
}

impl From<bool> for SaturatingBool {
    fn from(value: bool) -> SaturatingBool {
        SaturatingBool(value)
    }
}

impl vstd::std_specs::convert::FromSpecImpl<bool> for SaturatingBool {
    open spec fn obeys_from_spec() -> bool {
        true
    }

    open spec fn from_spec(value: bool) -> SaturatingBool {
        SaturatingBool(value)
    }
}

impl SaturatingBool {
    /// Whether the switch is on.
    pub fn get(self) -> (on: bool)
        ensures
            on == self.0,
    {
        self.0
    }

    /// The switch as text.
    pub fn to_text(&self) -> (text: &'static str)
        ensures
            text@ == (if self.0 {
                "true"@
            } else {
                "false"@
            }),
    {
        if self.0 {
            "true"
        } else {
            "false"
        }
    }

    /// Takes over a later setting: the switch is on if either is.
    pub fn merge_from(&mut self, other: &SaturatingBool)
        ensures
            final(self).0 == (old(self).0 || other.0),
    {
        self.0 = self.0 || other.0;
    }
}

/// A switch that is on stays on, whatever settings follow, and the order of the settings does
/// not matter.
pub proof fn law_saturated_switch_stays_on(first: bool, others: Seq<bool>)
    ensures
        merged(first, others) == (first || others.contains(true)),
    decreases others.len(),
{
    if others.len() > 0 {
        law_saturated_switch_stays_on(first, others.drop_last());
        if others.drop_last().contains(true) {
            let i = choose|i: int| 0 <= i < others.drop_last().len() && others.drop_last()[i];
            assert(others[i]);
        }
        if others.contains(true) && !others.last() {
            let i = choose|i: int| 0 <= i < others.len() && others[i];
            assert(others.drop_last()[i]);
        }
        if others.last() {
            assert(others[others.len() - 1]);
        }
    }
}

/// A switch after a row of later settings.
pub open spec fn merged(first: bool, others: Seq<bool>) -> bool
    decreases others.len(),
{
    if others.len() == 0 {
        first
    } else {
        merged(first, others.drop_last()) || others.last()
    }
}

/// How a kind of symbol is highlighted.
#[derive(Debug)]
pub struct SemanticTokenRule {
    /// The kind of symbol.
    pub token_type: Option<String>,
    /// What it has to be besides.
    pub token_modifiers: Vec<String>,
    /// The styles.
    pub style: Vec<String>,
}

/// How symbols are highlighted.
#[derive(Debug)]
pub struct SemanticTokenRules {
    /// The rules.
    pub rules: Vec<SemanticTokenRule>,
}

/// Texts as values.
pub open spec fn texts(items: Seq<String>) -> Seq<Seq<char>> {
    items.map_values(|item: String| item@)
}

/// The model of a rule.
#[verifier::ext_equal]
pub struct SemanticTokenRuleView {
    /// The kind of symbol.
    pub token_type: Option<Seq<char>>,
    /// What it has to be besides.
    pub token_modifiers: Seq<Seq<char>>,
    /// The styles.
    pub style: Seq<Seq<char>>,
}

impl View for SemanticTokenRule {
    type V = SemanticTokenRuleView;

    open spec fn view(&self) -> SemanticTokenRuleView {
        SemanticTokenRuleView {
            token_type: match self.token_type {
                Some(text) => Some(text@),
                None => None,
            },
            token_modifiers: texts(self.token_modifiers@),
            style: texts(self.style@),
        }
    }
}

impl View for SemanticTokenRules {
    type V = Seq<SemanticTokenRuleView>;

    open spec fn view(&self) -> Seq<SemanticTokenRuleView> {
        self.rules@.map_values(|rule: SemanticTokenRule| rule@)
    }
}

/// Whether two lists of texts are the same.
fn same_texts(one: &Vec<String>, two: &Vec<String>) -> (same: bool)
    ensures
        same == (texts(one@) == texts(two@)),
{
    if one.len() != two.len() {
        assert(texts(one@).len() != texts(two@).len());
        return false;
    }
    let mut i: usize = 0;
    while i < one.len()
        invariant
            i <= one@.len(),
            one@.len() == two@.len(),
            forall|j: int| 0 <= j < i ==> one@[j]@ == two@[j]@,
        decreases one@.len() - i,
    {
        if !same_text(one[i].as_str(), two[i].as_str()) {
            assert(texts(one@)[i as int] != texts(two@)[i as int]);
            return false;
        }
        i += 1;
    }
    assert(texts(one@) =~= texts(two@));
    true
}

impl SemanticTokenRule {
    /// Whether two rules say the same.
    pub fn same(&self, other: &SemanticTokenRule) -> (same: bool)
        ensures
            same == (self@ == other@),
    {
        let same_type = match (&self.token_type, &other.token_type) {
            (Some(one), Some(two)) => same_text(one.as_str(), two.as_str()),
            (None, None) => true,
            _ => false,
        };
        same_type && same_texts(&self.token_modifiers, &other.token_modifiers) && same_texts(
            &self.style,
            &other.style,
        )
    }
}

impl SemanticTokenRules {
    /// Whether two sets of rules say the same.
    pub fn same(&self, other: &SemanticTokenRules) -> (same: bool)
        ensures
            same == (self@ == other@),
    {
        if self.rules.len() != other.rules.len() {
            assert(self@.len() != other@.len());
            return false;
        }
        let mut i: usize = 0;
        while i < self.rules.len()
            invariant
                i <= self.rules@.len(),
                self.rules@.len() == other.rules@.len(),
                forall|j: int| 0 <= j < i ==> self.rules@[j]@ == other.rules@[j]@,
            decreases self.rules@.len() - i,
        {
            if !self.rules[i].same(&other.rules[i]) {
                assert(self@[i as int] != other@[i as int]);
                return false;
            }
            i += 1;
        }
        assert(self@ =~= other@);
        true
    }
}

/// The settings of one language server.
#[derive(Debug)]
pub struct LspSettings {}

/// A formatter.
#[derive(Debug)]
pub struct Formatter {
    /// Its name.
    pub name: String,
}

impl Default for Formatter {
    fn default() -> (value: Formatter)
        ensures
            value.name@.len() == 0,
    {
        Formatter {
            name: String::new(),
        }
    }
}

/// Formatters, in the order in which they run.
#[derive(Debug)]
pub struct FormatterList {
    /// The formatters.
    pub formatters: Vec<Formatter>,
}

impl Default for FormatterList {
    fn default() -> (value: FormatterList)
        ensures
            value.formatters@.len() == 0,
    {
        FormatterList {
            formatters: Vec::new(),
        }
    }
}

/// The settings of completions.
#[derive(Clone, Copy, Debug, PartialEq, Eq, Structural)]
pub struct CompletionSettingsContent {
    /// Whether words of the file are offered.
    pub words: Option<WordsCompletionMode>,
    /// How long such a word is at least.
    pub words_min_length: Option<u32>,
    /// Whether a language server is asked.
    pub lsp: Option<bool>,
    /// How long it may take, in milliseconds.
    pub lsp_fetch_timeout_ms: Option<u32>,
    /// How a completion is inserted.
    pub lsp_insert_mode: Option<LspInsertMode>,
}

impl Default for CompletionSettingsContent {
    fn default() -> (value: CompletionSettingsContent)
        ensures
            value.words is None,
            value.words_min_length is None,
            value.lsp is None,
            value.lsp_fetch_timeout_ms is None,
            value.lsp_insert_mode is None,
    {
        CompletionSettingsContent {
            words: None,
            words_min_length: None,
            lsp: None,
            lsp_fetch_timeout_ms: None,
            lsp_insert_mode: None,
        }
    }
}

/// Keys that are held.
#[derive(Clone, Copy, Debug, PartialEq, Eq, Structural)]
pub struct ModifiersContent {
    /// The control key.
    pub control: bool,
    /// The alternate key.
    pub alt: bool,
    /// The shift key.
    pub shift: bool,
    /// The key of the platform.
    pub platform: bool,
    /// The function key.
    pub function: bool,
}

impl Default for ModifiersContent {
    fn default() -> (value: ModifiersContent)
        ensures
            !value.control,
            !value.alt,
            !value.shift,
            !value.platform,
            !value.function,
    {
        ModifiersContent {
            control: false,
            alt: false,
            shift: false,
            platform: false,
            function: false,
        }
    }
}

/// The settings of hints in the text.
#[derive(Clone, Copy, Debug, PartialEq, Eq, Structural)]
pub struct InlayHintsSettingsContent {
    /// Whether they are shown.
    pub enabled: Option<bool>,
    /// Whether values are.
    pub show_value_hints: Option<bool>,
    /// Whether types are.
    pub show_type_hints: Option<bool>,
    /// Whether parameters are.
    pub show_parameter_hints: Option<bool>,
    /// Whether all others are.
    pub show_other_hints: Option<bool>,
    /// Whether they have a background.
    pub show_background: Option<bool>,
    /// How long an edit rests before they change, in milliseconds.
    pub edit_debounce_ms: Option<u32>,
    /// How long scrolling rests before they change, in milliseconds.
    pub scroll_debounce_ms: Option<u32>,
    /// The keys that show or hide them.
    pub toggle_on_modifiers_press: Option<ModifiersContent>,
}

impl Default for InlayHintsSettingsContent {
    fn default() -> (value: InlayHintsSettingsContent)
        ensures
            value.enabled is None,
            value.show_value_hints is None,
            value.show_type_hints is None,
            value.show_parameter_hints is None,
            value.show_other_hints is None,
            value.show_background is None,
            value.edit_debounce_ms is None,
            value.scroll_debounce_ms is None,
            value.toggle_on_modifiers_press is None,
    {
        InlayHintsSettingsContent {
            enabled: None,
            show_value_hints: None,
            show_type_hints: None,
            show_parameter_hints: None,
            show_other_hints: None,
            show_background: None,
            edit_debounce_ms: None,
            scroll_debounce_ms: None,
            toggle_on_modifiers_press: None,
        }
    }
}

/// The settings of guides of indentation.
#[derive(Clone, Copy, Debug, PartialEq, Eq, Structural)]
pub struct IndentGuidesSettingsContent {
    /// Whether they are shown.
    pub enabled: Option<bool>,
    /// How wide they are.
    pub line_width: Option<u32>,
    /// How wide the active one is.
    pub active_line_width: Option<u32>,
    /// How they are coloured.
    pub coloring: Option<IndentGuideColoring>,
    /// How the space between them is coloured.
    pub background_coloring: Option<IndentGuideBackgroundColoring>,
}

impl Default for IndentGuidesSettingsContent {
    fn default() -> (value: IndentGuidesSettingsContent)
        ensures
            value.enabled is None,
            value.line_width is None,
            value.active_line_width is None,
            value.coloring is None,
            value.background_coloring is None,
    {
        IndentGuidesSettingsContent {
            enabled: None,
            line_width: None,
            active_line_width: None,
            coloring: None,
            background_coloring: None,
        }
    }
}

/// What white space is shown as.
#[derive(Debug)]
pub struct WhitespaceMapContent {
    /// A space.
    pub space: Option<String>,
    /// A tabulator.
    pub tab: Option<String>,
}

impl Default for WhitespaceMapContent {
    fn default() -> (value: WhitespaceMapContent)
        ensures
            value.space is None,
            value.tab is None,
    {
        WhitespaceMapContent {
            space: None,
            tab: None,
        }
    }
}

/// Whether tags close by themselves.
#[derive(Clone, Copy, Debug, PartialEq, Eq, Structural)]
pub struct JsxTagAutoCloseContent {
    /// They do.
    pub enabled: Option<bool>,
}

impl Default for JsxTagAutoCloseContent {
    fn default() -> (value: JsxTagAutoCloseContent)
        ensures
            value.enabled is None,
    {
        JsxTagAutoCloseContent {
            enabled: None,
        }
    }
}

/// The settings of Copilot.
#[derive(Debug)]
pub struct CopilotSettingsContent {
    /// The token.
    pub token: Option<String>,
    /// The organisation.
    pub organization_id: Option<String>,
    /// The proxy.
    pub proxy: Option<String>,
    /// Whether the proxy's certificate is not looked at.
    pub proxy_no_verify: Option<bool>,
    /// The server of the enterprise.
    pub enterprise_uri: Option<String>,
    /// Whether the next edit is suggested.
    pub enable_next_edit_suggestions: Option<bool>,
}

impl Default for CopilotSettingsContent {
    fn default() -> (value: CopilotSettingsContent)
        ensures
            value.token is None,
            value.organization_id is None,
            value.proxy is None,
            value.proxy_no_verify is None,
            value.enterprise_uri is None,
            value.enable_next_edit_suggestions is None,
    {
        CopilotSettingsContent {
            token: None,
            organization_id: None,
            proxy: None,
            proxy_no_verify: None,
            enterprise_uri: None,
            enable_next_edit_suggestions: None,
        }
    }
}

/// The settings of Codestral.
#[derive(Debug)]
pub struct CodestralSettingsContent {
    /// The model.
    pub model: Option<String>,
    /// How long an answer is at most.
    pub max_tokens: Option<u32>,
    /// The server.
    pub api_url: Option<String>,
}

impl Default for CodestralSettingsContent {
    fn default() -> (value: CodestralSettingsContent)
        ensures
            value.model is None,
            value.max_tokens is None,
            value.api_url is None,
    {
        CodestralSettingsContent {
            model: None,
            max_tokens: None,
            api_url: None,
        }
    }
}

/// The settings of Ollama.
#[derive(Debug)]
pub struct OllamaSettingsContent {
    /// The model.
    pub model: Option<String>,
    /// How long an answer is at most.
    pub max_output_tokens: Option<u32>,
    /// The server.
    pub api_url: Option<String>,
    /// How the model is asked.
    pub prompt_format: Option<EditPredictionPromptFormatContent>,
}

impl Default for OllamaSettingsContent {
    fn default() -> (value: OllamaSettingsContent)
        ensures
            value.model is None,
            value.max_output_tokens is None,
            value.api_url is None,
            value.prompt_format is None,
    {
        OllamaSettingsContent {
            model: None,
            max_output_tokens: None,
            api_url: None,
            prompt_format: None,
        }
    }
}

/// The settings of a server of the common interface.
#[derive(Debug)]
pub struct OpenAiCompatibleApiSettingsContent {
    /// The model.
    pub model: Option<String>,
    /// The server.
    pub api_url: Option<String>,
    /// How the model is asked.
    pub prompt_format: Option<EditPredictionPromptFormatContent>,
}

impl Default for OpenAiCompatibleApiSettingsContent {
    fn default() -> (value: OpenAiCompatibleApiSettingsContent)
        ensures
            value.model is None,
            value.api_url is None,
            value.prompt_format is None,
    {
        OpenAiCompatibleApiSettingsContent {
            model: None,
            api_url: None,
            prompt_format: None,
        }
    }
}

/// The settings of predicted edits.
#[derive(Debug)]
pub struct EditPredictionSettingsContent {
    /// Who predicts.
    pub provider: Option<EditPredictionProvider>,
    /// How predictions are shown.
    pub mode: Option<EditPredictionsMode>,
    /// The files without predictions.
    pub disabled_globs: Option<Vec<String>>,
    /// Whether they may be kept for training.
    pub allow_data_collection: Option<EditPredictionDataCollectionChoice>,
    /// How the model is asked.
    pub prompt_format: Option<EditPredictionPromptFormatContent>,
    /// The settings of Copilot.
    pub copilot: Option<CopilotSettingsContent>,
    /// The settings of Codestral.
    pub codestral: Option<CodestralSettingsContent>,
    /// The settings of Ollama.
    pub ollama: Option<OllamaSettingsContent>,
    /// The settings of a server of the common interface.
    pub open_ai_compatible_api: Option<OpenAiCompatibleApiSettingsContent>,
}

impl Default for EditPredictionSettingsContent {
    fn default() -> (value: EditPredictionSettingsContent)
        ensures
            value.provider is None,
            value.mode is None,
            value.disabled_globs is None,
            value.allow_data_collection is None,
            value.prompt_format is None,
            value.copilot is None,
            value.codestral is None,
            value.ollama is None,
            value.open_ai_compatible_api is None,
    {
        EditPredictionSettingsContent {
            provider: None,
            mode: None,
            disabled_globs: None,
            allow_data_collection: None,
            prompt_format: None,
            copilot: None,
            codestral: None,
            ollama: None,
            open_ai_compatible_api: None,
        }
    }
}

/// The files of a language.
#[derive(Debug)]
pub struct LanguageFileTypeContent {
    /// The endings of their names.
    pub extensions: Vec<String>,
}

impl Default for LanguageFileTypeContent {
    fn default() -> (value: LanguageFileTypeContent)
        ensures
            value.extensions@.len() == 0,
    {
        LanguageFileTypeContent {
            extensions: Vec::new(),
        }
    }
}

/// A host of repositories.
#[derive(Debug)]
pub struct GitHostingProviderConfig {
    /// Its name.
    pub name: String,
    /// What it runs.
    pub provider: GitHostingProviderKind,
    /// Where it is found.
    pub base_url: String,
}

impl Default for GitHostingProviderConfig {
    fn default() -> (value: GitHostingProviderConfig)
        ensures
            value.name@.len() == 0,
            value.provider == GitHostingProviderKind::Github,
            value.base_url@.len() == 0,
    {
        GitHostingProviderConfig {
            name: String::new(),
            provider: GitHostingProviderKind::Github,
            base_url: String::new(),
        }
    }
}

/// A port that is forwarded.
#[derive(Debug)]
pub struct SshPortForwardOption {
    /// The host on this side.
    pub local_host: String,
    /// The host on the other side.
    pub remote_host: String,
    /// The port on this side.
    pub local_port: u16,
    /// The port on the other side.
    pub remote_port: u16,
}

impl Default for SshPortForwardOption {
    fn default() -> (value: SshPortForwardOption)
        ensures
            value.local_host@.len() == 0,
            value.remote_host@.len() == 0,
            value.local_port == 0,
            value.remote_port == 0,
    {
        SshPortForwardOption {
            local_host: String::new(),
            remote_host: String::new(),
            local_port: 0,
            remote_port: 0,
        }
    }
}

/// A remote host.
#[derive(Debug)]
pub struct SshConnection {
    /// Its name.
    pub host: String,
    /// The user.
    pub username: Option<String>,
    /// The port.
    pub port: Option<u16>,
    /// Further arguments.
    pub args: Option<Vec<String>>,
    /// The name that is shown.
    pub nickname: Option<String>,
    /// Whether the server is sent there from here.
    pub upload_binary_over_ssh: Option<bool>,
    /// The ports that are forwarded.
    pub port_forwards: Option<Vec<SshPortForwardOption>>,
    /// How long connecting may take, in seconds.
    pub connection_timeout: Option<u16>,
}

impl Default for SshConnection {
    fn default() -> (value: SshConnection)
        ensures
            value.host@.len() == 0,
            value.username is None,
            value.port is None,
            value.args is None,
            value.nickname is None,
            value.upload_binary_over_ssh is None,
            value.port_forwards is None,
            value.connection_timeout is None,
    {
        SshConnection {
            host: String::new(),
            username: None,
            port: None,
            args: None,
            nickname: None,
            upload_binary_over_ssh: None,
            port_forwards: None,
            connection_timeout: None,
        }
    }
}

/// A distribution in the subsystem for Linux.
#[derive(Debug)]
pub struct WslConnection {
    /// Its name.
    pub distro_name: String,
    /// The user.
    pub user: Option<String>,
}

impl Default for WslConnection {
    fn default() -> (value: WslConnection)
        ensures
            value.distro_name@.len() == 0,
            value.user is None,
    {
        WslConnection {
            distro_name: String::new(),
            user: None,
        }
    }
}

/// Stands for all language servers that are not named.
pub const REST_OF_LANGUAGE_SERVERS: &'static str = "...";

/// What a box holds.
pub open spec fn unboxed<C>(content: Option<Box<C>>) -> Option<C> {
    match content {
        Some(content) => Some(*content),
        None => None,
    }
}

/// What a box holds.
fn borrowed<C>(content: &Option<Box<C>>) -> (held: Option<&C>)
    ensures
        match held {
            Some(held) => unboxed(*content) == Some(*held),
            None => unboxed(*content) is None,
        },
{
    match content {
        Some(content) => Some(content),
        None => None,
    }
}

/// Settings that hold for a release channel only.
#[derive(Debug, Clone, PartialEq)]
pub struct ReleaseChannelOverrides<C> {
    /// Those of `dev`.
    pub dev: Option<Box<C>>,
    /// Those of `nightly`.
    pub nightly: Option<Box<C>>,
    /// Those of `preview`.
    pub preview: Option<Box<C>>,
    /// Those of `stable`.
    pub stable: Option<Box<C>>,
}

impl<C> Default for ReleaseChannelOverrides<C> {
    fn default() -> (overrides: Self)
        ensures
            overrides == (ReleaseChannelOverrides::<C> {
                dev: None,
                nightly: None,
                preview: None,
                stable: None,
            }),
    {
        ReleaseChannelOverrides { dev: None, nightly: None, preview: None, stable: None }
    }
}

impl<C> ReleaseChannelOverrides<C> {
    /// The names of the overrides.
    pub open spec fn keys() -> Seq<Seq<char>> {
        seq!["dev"@, "nightly"@, "preview"@, "stable"@]
    }

    /// The names of the overrides.
    pub fn override_keys() -> (keys: [&'static str; 4])
        ensures
            keys@.map_values(|key: &'static str| key@) == Self::keys(),
    {
        ["dev", "nightly", "preview", "stable"]
    }

    /// No name but those of [`Self::override_keys`] has overrides.
    pub proof fn law_only_keys_have_overrides(self, key: Seq<char>)
        requires
            !Self::keys().contains(key),
        ensures
            self.by_key(key) is None,
    {
        let keys = Self::keys();
        assert(keys[0] == "dev"@);
        assert(keys[1] == "nightly"@);
        assert(keys[2] == "preview"@);
        assert(keys[3] == "stable"@);
    }

    /// The overrides of a name.
    pub open spec fn by_key(&self, key: Seq<char>) -> Option<C> {
        if key == "dev"@ {
            unboxed(self.dev)
        } else if key == "nightly"@ {
            unboxed(self.nightly)
        } else if key == "preview"@ {
            unboxed(self.preview)
        } else if key == "stable"@ {
            unboxed(self.stable)
        } else {
            None
        }
    }

    /// The overrides of a name.
    pub fn get_by_key(&self, key: &str) -> (content: Option<&C>)
        ensures
            match content {
                Some(content) => self.by_key(key@) == Some(*content),
                None => self.by_key(key@) is None,
            },
    {
        if same_text(key, "dev") {
            borrowed(&self.dev)
        } else if same_text(key, "nightly") {
            borrowed(&self.nightly)
        } else if same_text(key, "preview") {
            borrowed(&self.preview)
        } else if same_text(key, "stable") {
            borrowed(&self.stable)
        } else {
            None
        }
    }
}

/// Settings that hold on a platform only.
#[derive(Debug, Clone, PartialEq)]
pub struct PlatformOverrides<C> {
    /// Those of `macos`.
    pub macos: Option<Box<C>>,
    /// Those of `linux`.
    pub linux: Option<Box<C>>,
    /// Those of `windows`.
    pub windows: Option<Box<C>>,
}

impl<C> Default for PlatformOverrides<C> {
    fn default() -> (overrides: Self)
        ensures
            overrides == (PlatformOverrides::<C> {
                macos: None,
                linux: None,
                windows: None,
            }),
    {
        PlatformOverrides { macos: None, linux: None, windows: None }
    }
}

impl<C> PlatformOverrides<C> {
    /// The names of the overrides.
    pub open spec fn keys() -> Seq<Seq<char>> {
        seq!["macos"@, "linux"@, "windows"@]
    }

    /// The names of the overrides.
    pub fn override_keys() -> (keys: [&'static str; 3])
        ensures
            keys@.map_values(|key: &'static str| key@) == Self::keys(),
    {
        ["macos", "linux", "windows"]
    }

    /// No name but those of [`Self::override_keys`] has overrides.
    pub proof fn law_only_keys_have_overrides(self, key: Seq<char>)
        requires
            !Self::keys().contains(key),
        ensures
            self.by_key(key) is None,
    {
        let keys = Self::keys();
        assert(keys[0] == "macos"@);
        assert(keys[1] == "linux"@);
        assert(keys[2] == "windows"@);
    }

    /// The overrides of a name.
    pub open spec fn by_key(&self, key: Seq<char>) -> Option<C> {
        if key == "macos"@ {
            unboxed(self.macos)
        } else if key == "linux"@ {
            unboxed(self.linux)
        } else if key == "windows"@ {
            unboxed(self.windows)
        } else {
            None
        }
    }

    /// The overrides of a name.
    pub fn get_by_key(&self, key: &str) -> (content: Option<&C>)
        ensures
            match content {
                Some(content) => self.by_key(key@) == Some(*content),
                None => self.by_key(key@) is None,
            },
    {
        if same_text(key, "macos") {
            borrowed(&self.macos)
        } else if same_text(key, "linux") {
            borrowed(&self.linux)
        } else if same_text(key, "windows") {
            borrowed(&self.windows)
        } else {
            None
        }
    }
}

/// Settings under a name, which can be put on for a while.
#[derive(Debug, Clone, PartialEq)]
pub struct SettingsProfile<C> {
    /// What they are put on.
    pub base: ProfileBase,
    /// The settings.
    pub settings: Box<C>,
}

impl<C: Default> Default for SettingsProfile<C> {
    fn default() -> (profile: Self)
        ensures
            profile.base == ProfileBase::User,
            call_ensures(C::default, (), *profile.settings),
    {
        SettingsProfile { base: ProfileBase::User, settings: Box::new(C::default()) }
    }
}

/// All that a user says in the settings.
#[derive(Debug, Clone, PartialEq)]
pub struct UserSettingsContent<C> {
    /// The settings.
    pub content: Box<C>,
    /// Those that hold for a release channel only.
    pub release_channel_overrides: ReleaseChannelOverrides<C>,
    /// Those that hold on a platform only.
    pub platform_overrides: PlatformOverrides<C>,
    /// Those under a name.
    pub profiles: TextMap<SettingsProfile<C>>,
}

impl<C: Default> Default for UserSettingsContent<C> {
    fn default() -> (user: Self)
        ensures
            call_ensures(C::default, (), *user.content),
            user.release_channel_overrides == (ReleaseChannelOverrides::<C> {
                dev: None,
                nightly: None,
                preview: None,
                stable: None,
            }),
            user.platform_overrides == (PlatformOverrides::<C> {
                macos: None,
                linux: None,
                windows: None,
            }),
            user.profiles.wf(),
            user.profiles@ == Map::<Seq<char>, SettingsProfile<C>>::empty(),
    {
        UserSettingsContent {
            content: Box::new(C::default()),
            release_channel_overrides: ReleaseChannelOverrides::default(),
            platform_overrides: PlatformOverrides::default(),
            profiles: TextMap::new(),
        }
    }
}

/// A switch that several settings share is on as soon as one of them turns it on.
pub proof fn law_one_setting_turns_the_switch_on(first: bool, others: Seq<bool>, more: bool)
    ensures
        merged(first, Seq::<bool>::empty()) == first,
        merged(first, others.push(more)) <==> merged(first, others) || more,
{
    assert(others.push(more).drop_last() =~= others);
}

/// Each release channel has its own overrides.
pub proof fn law_channels_have_their_overrides<C>(overrides: ReleaseChannelOverrides<C>)
    ensures
        overrides.by_key("dev"@) == unboxed(overrides.dev),
        overrides.by_key("nightly"@) == unboxed(overrides.nightly),
        overrides.by_key("preview"@) == unboxed(overrides.preview),
        overrides.by_key("stable"@) == unboxed(overrides.stable),
{
    reveal_strlit("dev");
    reveal_strlit("nightly");
    reveal_strlit("preview");
    reveal_strlit("stable");
    assert("dev"@.len() == 3 && "nightly"@.len() == 7 && "preview"@.len() == 7 && "stable"@.len()
        == 6);
    assert("nightly"@[0] == 'n' && "preview"@[0] == 'p');
}

/// Each platform has its own overrides.
pub proof fn law_platforms_have_their_overrides<C>(overrides: PlatformOverrides<C>)
    ensures
        overrides.by_key("macos"@) == unboxed(overrides.macos),
        overrides.by_key("linux"@) == unboxed(overrides.linux),
        overrides.by_key("windows"@) == unboxed(overrides.windows),
{
    reveal_strlit("macos");
    reveal_strlit("linux");
    reveal_strlit("windows");
    assert("macos"@.len() == 5 && "linux"@.len() == 5 && "windows"@.len() == 7);
    assert("macos"@[0] == 'm' && "linux"@[0] == 'l');
}

} // verus!
