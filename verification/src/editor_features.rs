//! What the editor keeps of features that a read-only editor does not have.
//!
//! No language server is asked, nothing is completed, predicted or renamed, and no link is
//! recognised. The types stand where other parts of the program name them.
use vstd::prelude::*;

verus! {

/// A request to a server to send everything again.
#[derive(Clone, Copy, Debug)]
pub struct RefreshForServer {}

/// What started a formatting.
#[derive(Clone, Copy, Debug, PartialEq, Eq, Structural)]
pub enum FormatTrigger {
    /// The user.
    Manual,
}

/// A way through a list.
#[derive(Clone, Copy, Debug, PartialEq, Eq, Structural)]
pub enum Direction {
    /// Backwards.
    Prev,
    /// Forwards.
    Next,
}

/// Identifies somebody who works along.
#[derive(Clone, Copy, Debug, PartialEq, Eq, Hash, Structural)]
pub struct CollaboratorId(pub u64);

impl Default for CollaboratorId {
    fn default() -> (value: CollaboratorId)
        ensures
            value == CollaboratorId(0),
    {
        CollaboratorId(0)
    }
}

/// Identifies a view.
#[derive(Clone, Copy, Debug, PartialEq, Eq, Hash, Structural)]
pub struct ViewId(pub u64);

impl Default for ViewId {
    fn default() -> (value: ViewId)
        ensures
            value == ViewId(0),
    {
        ViewId(0)
    }
}

/// Somebody who works along.
#[derive(Clone, Copy, Debug)]
pub struct Collaborator {
    /// The user.
    pub user_id: u64,
    /// The copy of the text that the user works on.
    pub replica_id: u16,
}

/// The place of a participant.
#[derive(Clone, Copy, Debug, PartialEq, Eq, Structural)]
pub struct ParticipantIndex(pub u32);

/// Where a project lies.
pub trait ProjectExt {
    /// Whether it lies on another host.
    fn is_remote(&self) -> bool;

    /// Whether it is reached through a server there.
    fn is_via_remote_server(&self) -> bool;
}

/// A project on this host.
#[derive(Clone, Copy, Debug)]
pub struct LocalProject {}

impl ProjectExt for LocalProject {
    fn is_remote(&self) -> (remote: bool)
        ensures
            !remote,
    {
        false
    }

    fn is_via_remote_server(&self) -> (remote: bool)
        ensures
            !remote,
    {
        false
    }
}

/// Where something to report happened.
#[derive(Clone, Copy, Debug)]
pub struct TelemetrySpawnLocation {}

/// What a completion does with the text.
#[derive(Clone, Copy, Debug, PartialEq, Eq, Structural)]
pub enum CompletionIntent {
    /// It adds.
    Add,
    /// It replaces.
    Replace,
}

/// How completions are shown.
#[derive(Clone, Copy, Debug)]
pub struct CompletionDisplayOptions {}

/// Completions that belong together.
#[derive(Clone, Copy, Debug)]
pub struct CompletionGroup {}

/// An answer with completions.
#[derive(Clone, Copy, Debug)]
pub struct CompletionResponse {}

/// Where a completion comes from.
#[derive(Clone, Copy, Debug, PartialEq, Eq, Structural)]
pub enum CompletionSource {
    /// A language server.
    Lsp,
}

/// The words of a text that are offered as completions: none.
pub fn split_words(_text: &str) -> (words: Vec<String>)
    ensures
        words@ == Seq::<String>::empty(),
{
    Vec::new()
}

/// An action on code that can be chosen.
#[derive(Clone, Copy, Debug)]
pub struct AvailableCodeAction {}

/// A list of completions.
#[derive(Clone, Copy, Debug)]
pub struct CompletionsMenu {}

impl Default for CompletionsMenu {
    fn default() -> CompletionsMenu {
        CompletionsMenu {}
    }
}

/// A list of actions on code.
#[derive(Clone, Copy, Debug)]
pub struct CodeActionsMenu {}

impl Default for CodeActionsMenu {
    fn default() -> CodeActionsMenu {
        CodeActionsMenu {}
    }
}

/// A list next to the cursor.
#[derive(Clone, Copy, Debug)]
pub enum CodeContextMenu {
    /// Completions.
    Completions(CompletionsMenu),
    /// Actions on code.
    CodeActions(CodeActionsMenu),
}

impl CodeContextMenu {
    /// Chooses the first entry, and says whether there is one: there is none.
    pub fn select_first(&mut self) -> (selected: bool)
        ensures
            !selected,
            *final(self) == *old(self),
    {
        false
    }

    /// Chooses the last entry, and says whether there is one: there is none.
    pub fn select_last(&mut self) -> (selected: bool)
        ensures
            !selected,
            *final(self) == *old(self),
    {
        false
    }
}

/// Where a list was opened.
#[derive(Clone, Copy, Debug, PartialEq, Eq, Structural)]
pub enum ContextMenuOrigin {
    /// At the cursor.
    Cursor,
    /// In the gutter, at a row.
    GutterIndicator(u32),
}

/// What is shown of the parameters of a call.
#[derive(Clone, Copy, Debug)]
pub struct SignatureHelpPopover {}

impl Default for SignatureHelpPopover {
    fn default() -> SignatureHelpPopover {
        SignatureHelpPopover {}
    }
}

/// Whether the parameters of a call are shown.
#[derive(Clone, Copy, Debug)]
pub struct SignatureHelpState {}

impl Default for SignatureHelpState {
    fn default() -> SignatureHelpState {
        SignatureHelpState {}
    }
}

impl SignatureHelpState {
    /// What is shown of the parameters: nothing.
    pub fn popover_mut(&mut self) -> (popover: Option<&mut SignatureHelpPopover>)
        ensures
            popover is None,
            *final(self) == *old(self),
    {
        None
    }
}

/// What hid the parameters of a call.
#[derive(Clone, Copy, Debug, PartialEq, Eq, Structural)]
pub enum SignatureHelpHiddenBy {
    /// The escape key.
    Escape,
}

/// The help under the pointer.
#[derive(Clone, Copy, Debug)]
pub struct HoverState {}

impl Default for HoverState {
    fn default() -> HoverState {
        HoverState {}
    }
}

impl HoverState {
    /// Whether the help has the focus: it never has.
    pub fn focused(&self) -> (focused: bool)
        ensures
            !focused,
    {
        false
    }
}

/// The link under the pointer.
#[derive(Clone, Copy, Debug)]
pub struct HoveredLinkState {}

impl Default for HoveredLinkState {
    fn default() -> HoveredLinkState {
        HoveredLinkState {}
    }
}

/// A link under the pointer.
#[derive(Debug)]
pub enum HoverLink {
    /// To an address.
    Url(String),
    /// To a place that a hint names.
    InlayHighlight(LocationLink),
}

/// A link to a place in a file.
#[derive(Debug)]
pub struct LocationLink {
    /// The file.
    pub path: String,
    /// The place.
    pub offset: usize,
}

/// The address in a text: none is recognised.
pub fn find_url(_text: &str) -> (url: Option<String>)
    ensures
        url is None,
{
    None
}

/// The address in a part of a text: none is recognised.
pub fn find_url_from_range(_text: &str, _range: std::ops::Range<usize>) -> (url: Option<String>)
    ensures
        url is None,
{
    None
}

/// The actions above code.
#[derive(Clone, Copy, Debug)]
pub struct CodeLensState {}

impl Default for CodeLensState {
    fn default() -> CodeLensState {
        CodeLensState {}
    }
}

/// What can be run.
#[derive(Clone, Copy, Debug)]
pub struct RunnableData {}

impl Default for RunnableData {
    fn default() -> RunnableData {
        RunnableData {}
    }
}

/// Tasks that can be run.
#[derive(Clone, Copy, Debug)]
pub struct RunnableTasks {}

/// Tasks that are ready to run.
#[derive(Clone, Copy, Debug)]
pub struct ResolvedTasks {}

/// Values that were shown in the text.
#[derive(Clone, Copy, Debug)]
pub struct InlineValueCache {}

impl Default for InlineValueCache {
    fn default() -> InlineValueCache {
        InlineValueCache {}
    }
}

/// Hints that a language server sent.
#[derive(Clone, Copy, Debug)]
pub struct LspInlayHintData {}

impl Default for LspInlayHintData {
    fn default() -> LspInlayHintData {
        LspInlayHintData {}
    }
}

/// Whether hints are shown in the text.
#[derive(Clone, Copy, Debug)]
pub struct InlayHintSettings {
    /// They are.
    pub enabled: bool,
}

impl Default for InlayHintSettings {
    fn default() -> (settings: InlayHintSettings)
        ensures
            !settings.enabled,
    {
        InlayHintSettings { enabled: false }
    }
}

/// The settings of hints, for every language the same.
pub fn inlay_hint_settings() -> (settings: InlayHintSettings)
    ensures
        !settings.enabled,
{
    InlayHintSettings { enabled: false }
}

/// Why hints are asked for again.
#[derive(Clone, Copy, Debug, PartialEq, Eq, Structural)]
pub enum InlayHintRefreshReason {
    /// The server wants it.
    RefreshRequested,
}

/// A hint in the text.
#[derive(Debug)]
pub struct InlayHint {
    /// Where it stands.
    pub offset: usize,
    /// What it says.
    pub label: String,
}

/// A change of the hints in the text.
#[derive(Debug)]
pub struct InlaySplice {
    /// The hints that go.
    pub to_remove: Vec<usize>,
    /// The hints that come.
    pub to_insert: Vec<InlayHint>,
}

/// The diagnostic that is shown.
#[derive(Clone, Copy, Debug)]
pub struct ActiveDiagnostic {}

impl Default for ActiveDiagnostic {
    fn default() -> ActiveDiagnostic {
        ActiveDiagnostic {}
    }
}

/// How diagnostics are drawn everywhere.
#[derive(Clone, Copy, Debug)]
pub struct GlobalDiagnosticRenderer {}

impl Default for GlobalDiagnosticRenderer {
    fn default() -> GlobalDiagnosticRenderer {
        GlobalDiagnosticRenderer {}
    }
}

/// Draws diagnostics.
pub trait DiagnosticRenderer: Sized {
    /// A copy of the renderer.
    fn clone_box(&self) -> Box<Self>;
}

/// Takes the renderer of diagnostics. None are drawn, so it is dropped.
pub fn set_diagnostic_renderer<R: DiagnosticRenderer>(_renderer: Option<Box<R>>) {
}

/// Opens the place of a file in the file manager. Nothing here does, so there is no such value.
#[derive(Debug, Clone, Copy)]
pub enum RevealInFileManager {
    /// Holds what cannot be.
    Never(core::convert::Infallible),
}

/// Offers completions.
pub trait CompletionProvider: Sized {
    /// A copy of the provider.
    fn clone_box(&self) -> Box<Self>;
}

/// Offers actions on code.
pub trait CodeActionProvider: Sized {
    /// A copy of the provider.
    fn clone_box(&self) -> Box<Self>;
}

/// What asked for a prediction.
#[derive(Clone, Copy, Debug)]
pub struct EditPredictionRequestTrigger {}

impl Default for EditPredictionRequestTrigger {
    fn default() -> EditPredictionRequestTrigger {
        EditPredictionRequestTrigger {}
    }
}

/// Who predicts edits.
#[derive(Clone, Copy, Debug, PartialEq, Eq, Structural)]
pub enum EditPredictionDelegate {
    /// Nobody.
    Nobody,
}

/// Why a prediction is gone.
#[derive(Clone, Copy, Debug, PartialEq, Eq, Structural)]
pub enum EditPredictionDiscardReason {
    /// It was taken.
    Accepted,
    /// It was not wanted.
    Rejected,
}

/// How much of a prediction is taken at once.
#[derive(Clone, Copy, Debug, PartialEq, Eq, Structural)]
pub enum EditPredictionGranularity {
    /// A character.
    Char,
    /// A word.
    Word,
    /// A line.
    Line,
}

/// How a suggestion is shown.
#[derive(Clone, Copy, Debug, PartialEq, Eq, Structural)]
pub enum SuggestionDisplayType {
    /// In the text.
    Inline,
    /// Beside it.
    Popup,
}

/// Somebody who predicts edits.
#[derive(Clone, Copy, Debug)]
pub struct RegisteredEditPredictionDelegate {}

/// Whether predictions are offered in lists.
#[derive(Clone, Copy, Debug, PartialEq, Eq, Structural)]
pub enum MenuEditPredictionsPolicy {
    /// They are not.
    Disabled,
}

impl Default for MenuEditPredictionsPolicy {
    fn default() -> (value: MenuEditPredictionsPolicy)
        ensures
            value == MenuEditPredictionsPolicy::Disabled,
    {
        MenuEditPredictionsPolicy::Disabled
    }
}

/// How a predicted edit is shown.
#[derive(Clone, Copy, Debug, PartialEq, Eq, Structural)]
pub enum EditDisplayMode {
    /// In the text.
    Inline,
}

impl Default for EditDisplayMode {
    fn default() -> (value: EditDisplayMode)
        ensures
            value == EditDisplayMode::Inline,
    {
        EditDisplayMode::Inline
    }
}

/// A prediction that is looked at.
#[derive(Clone, Copy, Debug)]
pub struct EditPredictionPreview {}

impl Default for EditPredictionPreview {
    fn default() -> EditPredictionPreview {
        EditPredictionPreview {}
    }
}

/// The settings of predictions.
#[derive(Clone, Copy, Debug)]
pub struct EditPredictionSettings {}

impl Default for EditPredictionSettings {
    fn default() -> EditPredictionSettings {
        EditPredictionSettings {}
    }
}

/// The state of predictions.
#[derive(Clone, Copy, Debug)]
pub struct EditPredictionState {}

impl Default for EditPredictionState {
    fn default() -> EditPredictionState {
        EditPredictionState {}
    }
}

/// A text with placeholders.
#[derive(Clone, Copy, Debug)]
pub struct Snippet {}

/// Whether a symbol can get another name.
#[derive(Clone, Copy, Debug, PartialEq, Eq, Structural)]
pub enum PrepareRenameResponse {
    /// It can.
    Ready,
}

/// What is done to a breakpoint.
#[derive(Clone, Copy, Debug, PartialEq, Eq, Structural)]
pub enum BreakpointEditAction {
    /// It is set or taken away.
    Toggle,
    /// It is switched on or off.
    InvertState,
}

/// Whether a breakpoint stops.
#[derive(Clone, Copy, Debug, PartialEq, Eq, Structural)]
pub enum BreakpointState {
    /// It does.
    Enabled,
    /// It does not.
    Disabled,
}

/// A change of breakpoints.
#[derive(Clone, Copy, Debug)]
pub struct BreakpointStoreEvent {}

/// The breakpoints.
#[derive(Clone, Copy, Debug)]
pub struct BreakpointStore {}

impl Default for BreakpointStore {
    fn default() -> BreakpointStore {
        BreakpointStore {}
    }
}

/// A breakpoint.
#[derive(Clone, Copy, Debug)]
pub struct Breakpoint {
    /// Where it is.
    pub offset: usize,
    /// Whether it stops.
    pub state: BreakpointState,
}

impl BreakpointStore {
    /// The breakpoints of a buffer: there are none.
    pub fn breakpoints(&self, _buffer_id: u64) -> (breakpoints: Vec<Breakpoint>)
        ensures
            breakpoints@ == Seq::<Breakpoint>::empty(),
    {
        Vec::new()
    }
}

/// Whether editing is modal.
#[derive(Clone, Copy, Debug, PartialEq, Eq, Structural)]
pub struct VimModeSetting(pub bool);

impl Default for VimModeSetting {
    fn default() -> (value: VimModeSetting)
        ensures
            value == VimModeSetting(false),
    {
        VimModeSetting(false)
    }
}

impl VimModeSetting {
    /// What the settings say of modal editing: nothing.
    pub fn try_get() -> (setting: Option<VimModeSetting>)
        ensures
            setting is None,
    {
        None
    }
}

/// The name of a variable of a task.
#[derive(Debug)]
pub enum VariableName {
    /// A name that the user chose.
    Custom(String),
}

/// Where the cursor is, as text above the editor.
#[derive(Debug)]
pub struct Breadcrumb {
    /// The text.
    pub text: String,
}

} // verus!
