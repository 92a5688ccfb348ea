//! What the commands of a window lead to.
//!
//! A command is looked at together with what the window shows, and turned into what has to be
//! done: a request to the server, a change of the view, or nothing.
use vstd::prelude::*;
use vstd::string::*;

use crate::layout::SplitDirection;
use crate::mux_window::{cyclic_pane_index, DomainId};
use crate::text::{chars_of, same_text, string_of, trim};
use crate::text_map::TextMap;

verus! {

/// A side of a pane.
#[derive(Clone, Copy, Debug, PartialEq, Eq, Structural)]
pub enum PaneSide {
    /// To the left.
    Left,
    /// To the right.
    Right,
    /// Above.
    Up,
    /// Below.
    Down,
}

/// The axis of a change of size.
#[derive(Clone, Copy, Debug, PartialEq, Eq, Structural)]
pub enum Axis {
    /// From left to right.
    Horizontal,
    /// From top to bottom.
    Vertical,
}

/// A command.
#[derive(Clone, Copy, Debug, PartialEq, Eq, Structural)]
pub enum MuxAction {
    /// Splits the active pane; the new one stands to the right.
    SplitRight,
    /// Splits the active pane; the new one stands below.
    SplitDown,
    /// Focuses the pane on a side of the active one.
    Focus(PaneSide),
    /// Focuses the next pane.
    FocusNextPane,
    /// Focuses the pane before.
    FocusPrevPane,
    /// Shows the next tab.
    NextTab,
    /// Shows the tab before.
    PrevTab,
    /// Focuses the pane at a place.
    FocusPaneIndex(u8),
    /// Waits for the second key of a command.
    EnterPrefixMode {
        /// For how long, in milliseconds.
        timeout_ms: u64,
    },
    /// Sends a key to the pane as it is.
    SendLiteral,
    /// Moves the border on a side of the active pane.
    Resize(PaneSide),
    /// Makes all panes equally large.
    ResizeEqual,
    /// Closes the active tab.
    CloseTab,
    /// Makes the active pane fill the window, or ends that.
    ZoomToggle,
    /// Opens a tab.
    NewTab,
    /// Gives the session another name.
    RenameSession,
}

/// What a window shows.
#[derive(Clone, Copy, Debug)]
pub struct WindowContext {
    /// The connection.
    pub domain: Option<DomainId>,
    /// Whether the window has a session of its own.
    pub has_session: bool,
    /// Whether the active item shows a pane of the multiplexer, and if so, whether that pane
    /// fills the window.
    pub active_zoomed: Option<bool>,
    /// The place of the active pane.
    pub active_index: Option<usize>,
    /// The number of panes.
    pub pane_count: usize,
    /// The place of the pane to the left of the active one.
    pub left: Option<usize>,
    /// The place of the pane to the right of the active one.
    pub right: Option<usize>,
    /// The place of the pane above the active one.
    pub up: Option<usize>,
    /// The place of the pane below the active one.
    pub down: Option<usize>,
}

/// What the server is told of a change of size.
#[derive(Clone, Copy, Debug, PartialEq, Eq, Structural)]
pub struct ServerResize {
    /// The connection.
    pub domain: DomainId,
    /// How the panes are split.
    pub direction: SplitDirection,
    /// By how many hundredths the share of the pane changes.
    pub hundredths: i32,
}

/// What has to be done. A request that concerns a pane concerns the active one.
#[derive(Clone, Copy, Debug, PartialEq, Eq, Structural)]
pub enum MuxEffect {
    /// Nothing.
    Nothing,
    /// Ask the server to split the pane, and show the new pane on a side of it.
    SplitPane {
        /// The connection.
        domain: DomainId,
        /// How the server splits.
        direction: SplitDirection,
        /// Where the new pane is shown.
        side: PaneSide,
    },
    /// Focus the pane at a place.
    FocusPane(usize),
    /// Show the next item of the pane.
    ActivateNextItem,
    /// Show the item before.
    ActivatePreviousItem,
    /// Let the pane wait for the second key of a command.
    EnterPrefixMode {
        /// For how long, in milliseconds.
        timeout_ms: u64,
    },
    /// Send the key of the command.
    SendLiteral,
    /// Change the size of the pane in the window, and tell the server where there is a
    /// connection and the item shows a pane.
    ResizePane {
        /// The axis.
        axis: Axis,
        /// By how many pixels.
        pixels: i32,
        /// What the server is told.
        told: Option<ServerResize>,
    },
    /// Make all panes equally large.
    ResetPaneSizes,
    /// Ask the server to close the pane.
    ClosePane {
        /// The connection.
        domain: DomainId,
    },
    /// Let the pane fill the window, or end that.
    SetZoomed(bool),
    /// Open a tab.
    OpenTab {
        /// The connection.
        domain: DomainId,
    },
    /// Ask for a new name of the session.
    AskForName {
        /// The connection.
        domain: DomainId,
    },
}

/// The place of the pane on a side of the active one.
pub open spec fn neighbour(context: WindowContext, side: PaneSide) -> Option<usize> {
    match side {
        PaneSide::Left => context.left,
        PaneSide::Right => context.right,
        PaneSide::Up => context.up,
        PaneSide::Down => context.down,
    }
}

/// The place next to the active pane.
pub open spec fn adjacent(context: WindowContext, forward: bool) -> Option<int> {
    match context.active_index {
        Some(current) => if current < context.pane_count {
            Some(
                if forward {
                    (current + 1) % context.pane_count as int
                } else {
                    (current - 1) % context.pane_count as int
                },
            )
        } else {
            None
        },
        None => None,
    }
}

/// What moving a border leads to: fifty pixels in the window, and a twentieth of the split on
/// the server.
pub open spec fn resize_effect(context: WindowContext, side: PaneSide) -> MuxEffect {
    let axis = if side == PaneSide::Left || side == PaneSide::Right {
        Axis::Horizontal
    } else {
        Axis::Vertical
    };
    let grows = side == PaneSide::Right || side == PaneSide::Down;
    MuxEffect::ResizePane {
        axis,
        pixels: if grows {
            50i32
        } else {
            (-50) as i32
        },
        told: match (context.domain, context.active_zoomed) {
            (Some(domain), Some(_)) => Some(
                ServerResize {
                    domain,
                    direction: if axis == Axis::Horizontal {
                        SplitDirection::LeftRight
                    } else {
                        SplitDirection::TopBottom
                    },
                    hundredths: if grows {
                        5i32
                    } else {
                        (-5) as i32
                    },
                },
            ),
            _ => None,
        },
    }
}

/// What a command leads to.
pub open spec fn effect_of(action: MuxAction, context: WindowContext) -> MuxEffect {
    match action {
        MuxAction::SplitRight => match (context.domain, context.active_zoomed) {
            (Some(domain), Some(_)) => MuxEffect::SplitPane {
                domain,
                direction: SplitDirection::LeftRight,
                side: PaneSide::Right,
            },
            _ => MuxEffect::Nothing,
        },
        MuxAction::SplitDown => match (context.domain, context.active_zoomed) {
            (Some(domain), Some(_)) => MuxEffect::SplitPane {
                domain,
                direction: SplitDirection::TopBottom,
                side: PaneSide::Down,
            },
            _ => MuxEffect::Nothing,
        },
        MuxAction::Focus(side) => match neighbour(context, side) {
            Some(index) => MuxEffect::FocusPane(index),
            None => MuxEffect::Nothing,
        },
        MuxAction::FocusNextPane => match adjacent(context, true) {
            Some(index) => MuxEffect::FocusPane(index as usize),
            None => MuxEffect::Nothing,
        },
        MuxAction::FocusPrevPane => match adjacent(context, false) {
            Some(index) => MuxEffect::FocusPane(index as usize),
            None => MuxEffect::Nothing,
        },
        MuxAction::NextTab => MuxEffect::ActivateNextItem,
        MuxAction::PrevTab => MuxEffect::ActivatePreviousItem,
        MuxAction::FocusPaneIndex(index) => if (index as usize) < context.pane_count {
            MuxEffect::FocusPane(index as usize)
        } else {
            MuxEffect::Nothing
        },
        MuxAction::EnterPrefixMode { timeout_ms } => if context.active_zoomed is Some {
            MuxEffect::EnterPrefixMode { timeout_ms }
        } else {
            MuxEffect::Nothing
        },
        MuxAction::SendLiteral => if context.active_zoomed is Some {
            MuxEffect::SendLiteral
        } else {
            MuxEffect::Nothing
        },
        MuxAction::Resize(side) => resize_effect(context, side),
        MuxAction::ResizeEqual => MuxEffect::ResetPaneSizes,
        MuxAction::CloseTab => match (context.domain, context.active_zoomed) {
            (Some(domain), Some(_)) => MuxEffect::ClosePane { domain },
            _ => MuxEffect::Nothing,
        },
        MuxAction::ZoomToggle => match context.active_zoomed {
            Some(zoomed) => MuxEffect::SetZoomed(!zoomed),
            None => MuxEffect::Nothing,
        },
        MuxAction::NewTab => match context.domain {
            Some(domain) => MuxEffect::OpenTab { domain },
            None => MuxEffect::Nothing,
        },
        MuxAction::RenameSession => match context.domain {
            Some(domain) => if context.has_session {
                MuxEffect::AskForName { domain }
            } else {
                MuxEffect::Nothing
            },
            None => MuxEffect::Nothing,
        },
    }
}

/// The place next to the active pane.
fn adjacent_index(context: &WindowContext, forward: bool) -> (index: Option<usize>)
    ensures
        match (index, adjacent(*context, forward)) {
            (Some(index), Some(expected)) => index == expected,
            (None, None) => true,
            _ => false,
        },
{
    match context.active_index {
        Some(current) => cyclic_pane_index(current, context.pane_count, forward),
        None => None,
    }
}

/// The command to focus a place, where there is one.
fn focus_effect(index: Option<usize>) -> (effect: MuxEffect)
    ensures
        effect == (match index {
            Some(index) => MuxEffect::FocusPane(index),
            None => MuxEffect::Nothing,
        }),
{
    match index {
        Some(index) => MuxEffect::FocusPane(index),
        None => MuxEffect::Nothing,
    }
}

/// What a command leads to.
pub fn mux_effect(action: MuxAction, context: &WindowContext) -> (effect: MuxEffect)
    ensures
        effect == effect_of(action, *context),
{
    match action {
        MuxAction::SplitRight => match (context.domain, context.active_zoomed) {
            (Some(domain), Some(_)) => MuxEffect::SplitPane {
                domain,
                direction: SplitDirection::LeftRight,
                side: PaneSide::Right,
            },
            _ => MuxEffect::Nothing,
        },
        MuxAction::SplitDown => match (context.domain, context.active_zoomed) {
            (Some(domain), Some(_)) => MuxEffect::SplitPane {
                domain,
                direction: SplitDirection::TopBottom,
                side: PaneSide::Down,
            },
            _ => MuxEffect::Nothing,
        },
        MuxAction::Focus(side) => focus_effect(
            match side {
                PaneSide::Left => context.left,
                PaneSide::Right => context.right,
                PaneSide::Up => context.up,
                PaneSide::Down => context.down,
            },
        ),
        MuxAction::FocusNextPane => focus_effect(adjacent_index(context, true)),
        MuxAction::FocusPrevPane => focus_effect(adjacent_index(context, false)),
        MuxAction::NextTab => MuxEffect::ActivateNextItem,
        MuxAction::PrevTab => MuxEffect::ActivatePreviousItem,
        MuxAction::FocusPaneIndex(index) => if (index as usize) < context.pane_count {
            MuxEffect::FocusPane(index as usize)
        } else {
            MuxEffect::Nothing
        },
        MuxAction::EnterPrefixMode { timeout_ms } => if context.active_zoomed.is_some() {
            MuxEffect::EnterPrefixMode { timeout_ms }
        } else {
            MuxEffect::Nothing
        },
        MuxAction::SendLiteral => if context.active_zoomed.is_some() {
            MuxEffect::SendLiteral
        } else {
            MuxEffect::Nothing
        },
        MuxAction::Resize(side) => {
            let (axis, direction, pixels, hundredths): (Axis, SplitDirection, i32, i32) =
                match side {
                PaneSide::Left => (Axis::Horizontal, SplitDirection::LeftRight, -50, -5),
                PaneSide::Right => (Axis::Horizontal, SplitDirection::LeftRight, 50, 5),
                PaneSide::Up => (Axis::Vertical, SplitDirection::TopBottom, -50, -5),
                PaneSide::Down => (Axis::Vertical, SplitDirection::TopBottom, 50, 5),
            };
            MuxEffect::ResizePane {
                axis,
                pixels,
                told: match (context.domain, context.active_zoomed) {
                    (Some(domain), Some(_)) => Some(ServerResize { domain, direction, hundredths }),
                    _ => None,
                },
            }
        },
        MuxAction::ResizeEqual => MuxEffect::ResetPaneSizes,
        MuxAction::CloseTab => match (context.domain, context.active_zoomed) {
            (Some(domain), Some(_)) => MuxEffect::ClosePane { domain },
            _ => MuxEffect::Nothing,
        },
        MuxAction::ZoomToggle => match context.active_zoomed {
            Some(zoomed) => MuxEffect::SetZoomed(!zoomed),
            None => MuxEffect::Nothing,
        },
        MuxAction::NewTab => match context.domain {
            Some(domain) => MuxEffect::OpenTab { domain },
            None => MuxEffect::Nothing,
        },
        MuxAction::RenameSession => match context.domain {
            Some(domain) => if context.has_session {
                MuxEffect::AskForName { domain }
            } else {
                MuxEffect::Nothing
            },
            None => MuxEffect::Nothing,
        },
    }
}

/// Without a connection nothing is asked of the server.
pub proof fn law_nothing_is_asked_without_a_connection(action: MuxAction, context: WindowContext)
    requires
        context.domain is None,
    ensures
        match effect_of(action, context) {
            MuxEffect::SplitPane { .. } => false,
            MuxEffect::ClosePane { .. } => false,
            MuxEffect::OpenTab { .. } => false,
            MuxEffect::AskForName { .. } => false,
            MuxEffect::ResizePane { told, .. } => told is None,
            _ => true,
        },
{
}

/// With a connection and an active pane of the multiplexer, a split down asks for panes one above
/// the other and shows the new one below, and a split to the right asks for panes side by side and
/// shows the new one to the right. Otherwise nothing is asked.
pub proof fn law_split_goes_the_way_it_says(context: WindowContext)
    ensures
        context.domain matches Some(domain) ==> context.active_zoomed is Some ==> {
            &&& effect_of(MuxAction::SplitDown, context) == (MuxEffect::SplitPane {
                domain,
                direction: SplitDirection::TopBottom,
                side: PaneSide::Down,
            })
            &&& effect_of(MuxAction::SplitRight, context) == (MuxEffect::SplitPane {
                domain,
                direction: SplitDirection::LeftRight,
                side: PaneSide::Right,
            })
        },
        context.domain is None || context.active_zoomed is None ==> effect_of(
            MuxAction::SplitDown,
            context,
        ) is Nothing && effect_of(MuxAction::SplitRight, context) is Nothing,
{
}

/// Focusing a side focuses the pane that stands there, and nothing where none does.
pub proof fn law_focus_goes_to_the_side(context: WindowContext, index: usize)
    ensures
        effect_of(MuxAction::Focus(PaneSide::Left), context) == MuxEffect::FocusPane(index)
            <==> context.left == Some(index),
        effect_of(MuxAction::Focus(PaneSide::Right), context) == MuxEffect::FocusPane(index)
            <==> context.right == Some(index),
        effect_of(MuxAction::Focus(PaneSide::Up), context) == MuxEffect::FocusPane(index)
            <==> context.up == Some(index),
        effect_of(MuxAction::Focus(PaneSide::Down), context) == MuxEffect::FocusPane(index)
            <==> context.down == Some(index),
        forall|side: PaneSide|
            (#[trigger] effect_of(MuxAction::Focus(side), context)) is FocusPane || effect_of(
                MuxAction::Focus(side),
                context,
            ) is Nothing,
{
}

/// The next pane is the one behind the active one, and the first behind the last; the pane before
/// is the one from which the active one is the next. A place is focused where there is one.
pub proof fn law_focus_goes_round(context: WindowContext, index: u8)
    ensures
        context.active_index matches Some(current) ==> current < context.pane_count ==> {
            &&& effect_of(MuxAction::FocusNextPane, context) matches MuxEffect::FocusPane(next)
                && if current + 1 < context.pane_count {
                next == current + 1
            } else {
                next == 0
            }
            &&& effect_of(MuxAction::FocusPrevPane, context) matches MuxEffect::FocusPane(before)
                && if current > 0 {
                before == current - 1
            } else {
                before == context.pane_count - 1
            }
        },
        (context.active_index matches Some(current) ==> current >= context.pane_count) ==> effect_of(
            MuxAction::FocusNextPane,
            context,
        ) is Nothing && effect_of(MuxAction::FocusPrevPane, context) is Nothing,
        effect_of(MuxAction::FocusPaneIndex(index), context) == (if index < context.pane_count {
            MuxEffect::FocusPane(index as usize)
        } else {
            MuxEffect::Nothing
        }),
{
    match context.active_index {
        Some(current) => {
            if current < context.pane_count {
                let count = context.pane_count as int;
                if current + 1 < count {
                    vstd::arithmetic::div_mod::lemma_small_mod((current + 1) as nat, count as nat);
                } else {
                    vstd::arithmetic::div_mod::lemma_mod_self_0(count);
                }
                if current > 0 {
                    vstd::arithmetic::div_mod::lemma_small_mod((current - 1) as nat, count as nat);
                } else {
                    vstd::arithmetic::div_mod::lemma_mod_add_multiples_vanish(-1, count);
                    vstd::arithmetic::div_mod::lemma_small_mod((count - 1) as nat, count as nat);
                    assert((-1int) % count == (count - 1) % count);
                }
            }
        },
        None => {},
    }
}

/// Moving a border to the right or down makes the pane larger by fifty pixels and a twentieth, and
/// to the left or up smaller by as much. Left and right change the width of panes side by side, up
/// and down the height of panes one above the other. The server is told where there is a connection
/// and a pane of it.
pub proof fn law_border_moves_to_its_side(context: WindowContext, side: PaneSide)
    ensures
        effect_of(MuxAction::Resize(side), context) matches MuxEffect::ResizePane {
            axis,
            pixels,
            told,
        } && {
            &&& axis == Axis::Horizontal <==> (side == PaneSide::Left || side == PaneSide::Right)
            &&& pixels == (if side == PaneSide::Right || side == PaneSide::Down {
                50int
            } else {
                -50int
            })
            &&& told is Some <==> (context.domain is Some && context.active_zoomed is Some)
            &&& told matches Some(told) ==> {
                &&& context.domain == Some(told.domain)
                &&& told.direction == SplitDirection::LeftRight <==> axis == Axis::Horizontal
                &&& told.hundredths * 10 == pixels
            }
        },
{
}

/// The other commands: tabs go forth and back, zooming is toggled, the second key is waited for as
/// long as was said, and a tab is closed or opened and a session renamed on the connection of the
/// window.
pub proof fn law_commands_reach_what_they_name(context: WindowContext, timeout_ms: u64, domain: DomainId)
    ensures
        effect_of(MuxAction::NextTab, context) is ActivateNextItem,
        effect_of(MuxAction::PrevTab, context) is ActivatePreviousItem,
        effect_of(MuxAction::ResizeEqual, context) is ResetPaneSizes,
        context.active_zoomed is None ==> {
            &&& effect_of(MuxAction::ZoomToggle, context) is Nothing
            &&& effect_of(MuxAction::SendLiteral, context) is Nothing
            &&& effect_of(MuxAction::EnterPrefixMode { timeout_ms }, context) is Nothing
            &&& effect_of(MuxAction::CloseTab, context) is Nothing
        },
        context.active_zoomed is Some ==> {
            &&& effect_of(MuxAction::SendLiteral, context) is SendLiteral
            &&& effect_of(MuxAction::EnterPrefixMode { timeout_ms }, context)
                == (MuxEffect::EnterPrefixMode { timeout_ms })
            &&& effect_of(MuxAction::CloseTab, context) == (MuxEffect::ClosePane { domain })
                <==> context.domain == Some(domain)
        },
        context.active_zoomed == Some(true) ==> effect_of(MuxAction::ZoomToggle, context)
            == MuxEffect::SetZoomed(false),
        context.active_zoomed == Some(false) ==> effect_of(MuxAction::ZoomToggle, context)
            == MuxEffect::SetZoomed(true),
        effect_of(MuxAction::NewTab, context) == (MuxEffect::OpenTab { domain }) <==> context.domain
            == Some(domain),
        effect_of(MuxAction::RenameSession, context) == (MuxEffect::AskForName { domain }) <==> (
        context.has_session && context.domain == Some(domain)),
{
}

/// What the server did not do.
#[derive(Clone, Copy, Debug, PartialEq, Eq, Structural)]
pub enum MuxFailure {
    /// Focus a pane.
    Focus,
    /// Split a pane.
    Split,
    /// Close a pane.
    Close,
    /// Name its sessions.
    FindSession,
    /// Create a tab in a session.
    CreateTab,
}

/// What the user is told of a failure. `subject` is the pane or the session.
pub open spec fn failure_text(failure: MuxFailure, subject: Seq<char>, error: Seq<char>) -> Seq<
    char,
> {
    match failure {
        MuxFailure::Focus => "Failed to focus mux pane "@ + subject + ": "@ + error,
        MuxFailure::Split => "Failed to split mux pane "@ + subject + ": "@ + error,
        MuxFailure::Close => "Failed to close mux pane "@ + subject + ": "@ + error,
        MuxFailure::FindSession => "Failed to find a mux session for the new tab"@ + ": "@ + error,
        MuxFailure::CreateTab => "Failed to create mux tab in session "@ + subject + ": "@ + error,
    }
}

/// What the user is told of a failure.
pub fn failure_message(failure: MuxFailure, subject: &str, error: &str) -> (text: String)
    ensures
        text@ == failure_text(failure, subject@, error@),
{
    let mut text = String::new();
    match failure {
        MuxFailure::Focus => {
            text.append("Failed to focus mux pane ");
            text.append(subject);
        },
        MuxFailure::Split => {
            text.append("Failed to split mux pane ");
            text.append(subject);
        },
        MuxFailure::Close => {
            text.append("Failed to close mux pane ");
            text.append(subject);
        },
        MuxFailure::FindSession => {
            text.append("Failed to find a mux session for the new tab");
        },
        MuxFailure::CreateTab => {
            text.append("Failed to create mux tab in session ");
            text.append(subject);
        },
    }
    text.append(": ");
    text.append(error);
    assert(text@ =~= failure_text(failure, subject@, error@));
    text
}

/// Where a new tab goes.
#[derive(Debug)]
pub enum NewTabStep {
    /// Into this session.
    Spawn(String),
    /// The server has to name its sessions first.
    ListSessions,
}

/// Where a new tab goes: into the session of the window, or else into the one that was attached
/// last.
pub fn new_tab_session(known: Option<String>, last_attached: Option<String>) -> (step: NewTabStep)
    ensures
        match (known, last_attached) {
            (Some(session), _) => step == NewTabStep::Spawn(session),
            (None, Some(session)) => step == NewTabStep::Spawn(session),
            (None, None) => step == NewTabStep::ListSessions,
        },
{
    match known {
        Some(session) => NewTabStep::Spawn(session),
        None => match last_attached {
            Some(session) => NewTabStep::Spawn(session),
            None => NewTabStep::ListSessions,
        },
    }
}

/// Where a new tab goes once the server named its sessions or failed to: into the first one.
/// Otherwise the user is told these things.
pub fn new_tab_listed(sessions: Result<&Vec<String>, &str>) -> (choice: Result<
    String,
    Vec<String>,
>)
    ensures
        match (sessions, choice) {
            (Ok(sessions), Ok(session)) => sessions@.len() > 0 && session@ == sessions@[0]@,
            (Ok(sessions), Err(messages)) => sessions@.len() == 0 && messages@.len() == 1
                && messages@[0]@ == "No mux session is available for the new tab"@,
            (Err(error), Err(messages)) => messages@.len() == 2 && messages@[0]@ == failure_text(
                MuxFailure::FindSession,
                Seq::empty(),
                error@,
            ) && messages@[1]@ == "No mux session is available for the new tab"@,
            (Err(_), Ok(_)) => false,
        },
{
    let mut messages: Vec<String> = Vec::new();
    match sessions {
        Ok(sessions) => {
            if sessions.len() > 0 {
                return Ok(sessions[0].clone());
            }
        },
        Err(error) => {
            messages.push(failure_message(MuxFailure::FindSession, "", error));
        },
    }
    messages.push("No mux session is available for the new tab".to_owned());
    Err(messages)
}

/// The columns of a new tab.
pub const NEW_TAB_COLS: u32 = 80;

/// The rows of a new tab.
pub const NEW_TAB_ROWS: u32 = 24;

/// The identifier of a new tab, given a text that was drawn by chance.
pub fn tab_id(random: &str) -> (id: String)
    ensures
        id@ == "tab-"@ + random@,
{
    let mut id = String::new();
    id.append("tab-");
    id.append(random);
    assert(id@ =~= "tab-"@ + random@);
    id
}

/// An item of a pane of the window: its identifier, and the pane of the multiplexer that it
/// shows, if it shows one.
#[derive(Debug)]
pub struct PaneItem {
    /// Identifies the item.
    pub item_id: u64,
    /// The pane of the multiplexer.
    pub pane_id: Option<String>,
}

/// An item shows a pane of the multiplexer.
pub open spec fn shows(item: PaneItem, pane_id: Seq<char>) -> bool {
    item.pane_id matches Some(shown) && shown@ == pane_id
}

/// A place in a row of panes comes before another one.
pub open spec fn earlier(one: (int, int), two: (int, int)) -> bool {
    one.0 < two.0 || (one.0 == two.0 && one.1 < two.1)
}

/// A place is that of an item.
pub open spec fn is_place(panes: Seq<Vec<PaneItem>>, place: (int, int)) -> bool {
    0 <= place.0 < panes.len() && 0 <= place.1 < panes[place.0]@.len()
}

/// Where the first item stands that shows a pane of the multiplexer: the place of its pane in
/// the window and its own place there.
pub fn locate_mux_pane(panes: &Vec<Vec<PaneItem>>, pane_id: &str) -> (place: Option<(usize, usize)>)
    ensures
        match place {
            Some((pane, item)) => {
                &&& is_place(panes@, (pane as int, item as int))
                &&& shows(panes@[pane as int]@[item as int], pane_id@)
                &&& forall|p: int, i: int|
                    is_place(panes@, (p, i)) && earlier((p, i), (pane as int, item as int))
                        ==> !shows(#[trigger] panes@[p]@[i], pane_id@)
            },
            None => forall|p: int, i: int|
                is_place(panes@, (p, i)) ==> !shows(#[trigger] panes@[p]@[i], pane_id@),
        },
{
    let mut pane: usize = 0;
    while pane < panes.len()
        invariant
            pane <= panes@.len(),
            forall|p: int, i: int|
                is_place(panes@, (p, i)) && p < pane ==> !shows(
                    #[trigger] panes@[p]@[i],
                    pane_id@,
                ),
        decreases panes@.len() - pane,
    {
        let items = &panes[pane];
        let mut item: usize = 0;
        while item < items.len()
            invariant
                pane < panes@.len(),
                items@ == panes@[pane as int]@,
                item <= items@.len(),
                forall|p: int, i: int|
                    is_place(panes@, (p, i)) && p < pane ==> !shows(
                        #[trigger] panes@[p]@[i],
                        pane_id@,
                    ),
                forall|i: int| 0 <= i < item ==> !shows(#[trigger] items@[i], pane_id@),
            decreases items@.len() - item,
        {
            match &items[item].pane_id {
                Some(shown) => {
                    if same_text(shown.as_str(), pane_id) {
                        return Some((pane, item));
                    }
                },
                None => {},
            }
            item += 1;
        }
        pane += 1;
    }
    None
}

/// The pane of the multiplexer that an item shows: the first pane of the window is asked that
/// has the item as its first one with the identifier and shows something with it.
pub fn mux_pane_id_for_item(panes: &Vec<Vec<PaneItem>>, item_id: u64) -> (pane_id: Option<String>)
    ensures
        match (pane_id, shown_by(panes@, item_id)) {
            (Some(pane_id), Some(expected)) => pane_id@ == expected,
            (None, None) => true,
            _ => false,
        },
{
    let mut pane: usize = 0;
    assert(panes@.skip(0) =~= panes@);
    while pane < panes.len()
        invariant
            pane <= panes@.len(),
            shown_by(panes@, item_id) == shown_by(panes@.skip(pane as int), item_id),
        decreases panes@.len() - pane,
    {
        let items = &panes[pane];
        assert(panes@.skip(pane as int)[0] == panes@[pane as int]);
        assert(panes@.skip(pane as int).drop_first() =~= panes@.skip(pane + 1));
        let mut item: usize = 0;
        assert(items@.skip(0) =~= items@);
        while item < items.len() && items[item].item_id != item_id
            invariant
                item <= items@.len(),
                shown_in(items@, item_id) == shown_in(items@.skip(item as int), item_id),
            decreases items@.len() - item,
        {
            assert(items@.skip(item as int)[0] == items@[item as int]);
            assert(items@.skip(item as int).drop_first() =~= items@.skip(item + 1));
            item += 1;
        }
        if item < items.len() {
            assert(items@.skip(item as int)[0] == items@[item as int]);
            match &items[item].pane_id {
                Some(shown) => {
                    return Some(shown.clone());
                },
                None => {},
            }
        }
        pane += 1;
    }
    None
}

/// What the first item with an identifier shows.
pub open spec fn shown_in(items: Seq<PaneItem>, item_id: u64) -> Option<Seq<char>>
    decreases items.len(),
{
    if items.len() == 0 {
        None
    } else if items[0].item_id == item_id {
        match items[0].pane_id {
            Some(shown) => Some(shown@),
            None => None,
        }
    } else {
        shown_in(items.drop_first(), item_id)
    }
}

/// What the first pane shows that shows something with an item.
pub open spec fn shown_by(panes: Seq<Vec<PaneItem>>, item_id: u64) -> Option<Seq<char>>
    decreases panes.len(),
{
    if panes.len() == 0 {
        None
    } else {
        match shown_in(panes[0]@, item_id) {
            Some(shown) => Some(shown),
            None => shown_by(panes.drop_first(), item_id),
        }
    }
}

/// The panes of the window by the panes of the multiplexer that they show. Where two show the
/// same one, the first counts.
pub fn existing_panes(panes: &Vec<Vec<PaneItem>>) -> (existing: TextMap<usize>)
    ensures
        existing.wf(),
        forall|pane_id: Seq<char>| #[trigger]
            existing@.contains_key(pane_id) ==> existing@[pane_id] < panes@.len() && (exists|i: int|
                0 <= i < panes@[existing@[pane_id] as int]@.len() && shows(
                    #[trigger] panes@[existing@[pane_id] as int]@[i],
                    pane_id,
                )),
        forall|p: int, i: int|
            is_place(panes@, (p, i)) && (#[trigger] panes@[p]@[i]).pane_id is Some
                ==> existing@.contains_key(panes@[p]@[i].pane_id->0@)
                && existing@[panes@[p]@[i].pane_id->0@] <= p,
{
    let mut existing: TextMap<usize> = TextMap::new();
    let mut pane: usize = 0;
    while pane < panes.len()
        invariant
            pane <= panes@.len(),
            existing.wf(),
            forall|pane_id: Seq<char>| #[trigger]
                existing@.contains_key(pane_id) ==> existing@[pane_id] < pane && (exists|i: int|
                    0 <= i < panes@[existing@[pane_id] as int]@.len() && shows(
                        #[trigger] panes@[existing@[pane_id] as int]@[i],
                        pane_id,
                    )),
            forall|p: int, i: int|
                is_place(panes@, (p, i)) && p < pane && (#[trigger] panes@[p]@[i]).pane_id is Some
                    ==> existing@.contains_key(panes@[p]@[i].pane_id->0@)
                    && existing@[panes@[p]@[i].pane_id->0@] <= p,
        decreases panes@.len() - pane,
    {
        let items = &panes[pane];
        let mut item: usize = 0;
        while item < items.len()
            invariant
                pane < panes@.len(),
                items@ == panes@[pane as int]@,
                item <= items@.len(),
                existing.wf(),
                forall|pane_id: Seq<char>| #[trigger]
                    existing@.contains_key(pane_id) ==> existing@[pane_id] <= pane && (exists|
                        i: int,
                    |
                        0 <= i < panes@[existing@[pane_id] as int]@.len() && shows(
                            #[trigger] panes@[existing@[pane_id] as int]@[i],
                            pane_id,
                        )),
                forall|p: int, i: int|
                    is_place(panes@, (p, i)) && p < pane && (
                    #[trigger] panes@[p]@[i]).pane_id is Some ==> existing@.contains_key(
                        panes@[p]@[i].pane_id->0@,
                    ) && existing@[panes@[p]@[i].pane_id->0@] <= p,
                forall|i: int|
                    0 <= i < item && (#[trigger] items@[i]).pane_id is Some
                        ==> existing@.contains_key(items@[i].pane_id->0@)
                        && existing@[items@[i].pane_id->0@] <= pane,
            decreases items@.len() - item,
        {
            match &items[item].pane_id {
                Some(shown) => {
                    if !existing.contains_key(shown.as_str()) {
                        let ghost before = existing@;
                        existing.insert(shown.clone(), pane);
                        proof {
                            assert(shows(panes@[pane as int]@[item as int], shown@));
                            assert forall|pane_id: Seq<char>| #[trigger]
                                existing@.contains_key(pane_id) implies existing@[pane_id] <= pane
                                && (exists|i: int|
                                0 <= i < panes@[existing@[pane_id] as int]@.len() && shows(
                                    #[trigger] panes@[existing@[pane_id] as int]@[i],
                                    pane_id,
                                )) by {
                                if pane_id != shown@ {
                                    assert(before.contains_key(pane_id));
                                }
                            }
                        }
                    }
                },
                None => {},
            }
            item += 1;
        }
        pane += 1;
    }
    existing
}

/// A request to the server to move a pane.
#[derive(Debug)]
pub struct PaneMove {
    /// The pane.
    pub pane_id: String,
    /// The pane next to which it goes.
    pub target_pane_id: String,
    /// How the two are arranged.
    pub direction: SplitDirection,
    /// Whether the pane comes before the target.
    pub before: bool,
}

/// How a tab that was dropped on a side of a pane, or into its tabs, is arranged. The server
/// knows no stacks: a tab that was dropped into tabs goes next to the pane, along the split that
/// the pane is part of.
pub open spec fn drop_placement(
    side: Option<PaneSide>,
    before: bool,
    parent_direction: Option<SplitDirection>,
) -> (SplitDirection, bool) {
    match side {
        Some(PaneSide::Left) => (SplitDirection::LeftRight, true),
        Some(PaneSide::Right) => (SplitDirection::LeftRight, false),
        Some(PaneSide::Up) => (SplitDirection::TopBottom, true),
        Some(PaneSide::Down) => (SplitDirection::TopBottom, false),
        None => (
            match parent_direction {
                Some(direction) => direction,
                None => SplitDirection::LeftRight,
            },
            before,
        ),
    }
}

/// A tab that was dropped on a side stands there: side by side on the left or the right, one above
/// the other at the top or the bottom, and before the pane on the left and at the top. Dropped into
/// tabs, it stands along the split of the pane on the side it was dropped.
pub proof fn law_dropped_tab_stands_where_it_was_dropped(
    side: PaneSide,
    before: bool,
    parent_direction: Option<SplitDirection>,
)
    ensures
        ({
            let (direction, first) = drop_placement(Some(side), before, parent_direction);
            &&& direction == SplitDirection::LeftRight <==> (side == PaneSide::Left || side
                == PaneSide::Right)
            &&& first <==> (side == PaneSide::Left || side == PaneSide::Up)
        }),
        ({
            let (direction, first) = drop_placement(None, before, parent_direction);
            &&& first == before
            &&& parent_direction matches Some(along) ==> direction == along
            &&& parent_direction is None ==> direction == SplitDirection::LeftRight
        }),
{
}

/// What a dropped tab asks of the server: nothing where one of the two items shows no pane,
/// where both show the same, or where there is no connection.
pub fn forward_tab_drop(
    pane_id: Option<String>,
    target_pane_id: Option<String>,
    side: Option<PaneSide>,
    before: bool,
    parent_direction: Option<SplitDirection>,
    connected: bool,
) -> (request: Option<PaneMove>)
    ensures
        match request {
            Some(request) => {
                &&& connected
                &&& pane_id matches Some(pane) && target_pane_id matches Some(target) && pane@
                    != target@ && request.pane_id@ == pane@ && request.target_pane_id@ == target@
                &&& (request.direction, request.before) == drop_placement(
                    side,
                    before,
                    parent_direction,
                )
            },
            None => !connected || !(pane_id matches Some(pane) && target_pane_id matches Some(target)
                && pane@ != target@),
        },
{
    match (pane_id, target_pane_id) {
        (Some(pane), Some(target)) => {
            if same_text(pane.as_str(), target.as_str()) || !connected {
                return None;
            }
            let (direction, before) = match side {
                Some(PaneSide::Left) => (SplitDirection::LeftRight, true),
                Some(PaneSide::Right) => (SplitDirection::LeftRight, false),
                Some(PaneSide::Up) => (SplitDirection::TopBottom, true),
                Some(PaneSide::Down) => (SplitDirection::TopBottom, false),
                None => (
                    match parent_direction {
                        Some(direction) => direction,
                        None => SplitDirection::LeftRight,
                    },
                    before,
                ),
            };
            Some(PaneMove { pane_id: pane, target_pane_id: target, direction, before })
        },
        _ => None,
    }
}

/// The question for a session's new name.
#[derive(Debug)]
pub struct RenameSessionModal {
    /// The session.
    pub session_id: String,
    /// What is wrong with the answer.
    pub error: Option<String>,
}

/// What the question leads to.
#[derive(Debug)]
pub enum RenameStep {
    /// Ask the server to give the session this name.
    Rename(String),
    /// The question stays open.
    Stay,
    /// The question is closed.
    Dismiss,
}

impl RenameSessionModal {
    /// The question about a session.
    pub fn new(session_id: String) -> (modal: RenameSessionModal)
        ensures
            modal.session_id == session_id,
            modal.error is None,
    {
        RenameSessionModal { session_id, error: None }
    }

    /// The name that the question starts with, once the server named its sessions: the name of
    /// the session, unless something was typed by then.
    pub fn prefill(&self, sessions: &Vec<(String, String)>, typed: &str) -> (name: Option<String>)
        ensures
            match name {
                Some(name) => typed@.len() == 0 && exists|i: int|
                    0 <= i < sessions@.len() && (#[trigger] sessions@[i]).0@ == self.session_id@
                        && sessions@[i].1@ == name@ && forall|j: int|
                        0 <= j < i ==> (#[trigger] sessions@[j]).0@ != self.session_id@,
                None => typed@.len() > 0 || forall|i: int|
                    0 <= i < sessions@.len() ==> (#[trigger] sessions@[i]).0@ != self.session_id@,
            },
    {
        if chars_of(typed).len() > 0 {
            return None;
        }
        let mut i: usize = 0;
        while i < sessions.len()
            invariant
                i <= sessions@.len(),
                typed@.len() == 0,
                forall|j: int|
                    0 <= j < i ==> (#[trigger] sessions@[j]).0@ != self.session_id@,
            decreases sessions@.len() - i,
        {
            if same_text(sessions[i].0.as_str(), self.session_id.as_str()) {
                let name = sessions[i].1.clone();
                assert(sessions@[i as int].1@ == name@);
                return Some(name);
            }
            i += 1;
        }
        None
    }

    /// The answer is confirmed. White space around the name does not count, and a name without
    /// anything else is refused.
    pub fn confirm(&mut self, text: &str) -> (step: RenameStep)
        ensures
            final(self).session_id == old(self).session_id,
            if crate::text::trimmed(text@).len() == 0 {
                &&& step is Stay
                &&& final(self).error matches Some(error) && error@ == "A session needs a name"@
            } else {
                &&& step matches RenameStep::Rename(name) && name@ == crate::text::trimmed(text@)
                &&& final(self).error is None
            },
    {
        let name = trim(&chars_of(text));
        if name.len() == 0 {
            self.error = Some("A session needs a name".to_owned());
            return RenameStep::Stay;
        }
        self.error = None;
        let len = name.len();
        assert(name@.subrange(0, len as int) =~= name@);
        RenameStep::Rename(string_of(&name, 0, len))
    }

    /// The server answered. A refusal keeps the question open and says why.
    pub fn answered(&mut self, result: Result<(), String>) -> (step: RenameStep)
        ensures
            final(self).session_id == old(self).session_id,
            match result {
                Ok(_) => step is Dismiss && final(self).error == old(self).error,
                Err(error) => step is Stay && final(self).error == Some(error),
            },
    {
        match result {
            Ok(_) => RenameStep::Dismiss,
            Err(error) => {
                self.error = Some(error);
                RenameStep::Stay
            },
        }
    }
}

/// An item shows the pane that the first item with its identifier shows, looked for pane by pane.
pub proof fn law_first_item_decides_what_is_shown(
    items: Seq<PaneItem>,
    item_id: u64,
    at: int,
)
    requires
        0 <= at < items.len(),
        items[at].item_id == item_id,
        forall|i: int| 0 <= i < at ==> (#[trigger] items[i]).item_id != item_id,
    ensures
        shown_in(items, item_id) is Some <==> items[at].pane_id is Some,
        items[at].pane_id matches Some(shown) ==> shown_in(items, item_id) == Some(shown@),
    decreases items.len(),
{
    if at > 0 {
        let rest = items.drop_first();
        assert forall|i: int| 0 <= i < at - 1 implies (#[trigger] rest[i]).item_id != item_id by {
            assert(rest[i] == items[i + 1]);
        }
        assert(items[0].item_id != item_id);
        law_first_item_decides_what_is_shown(rest, item_id, at - 1);
    }
}

/// An item that no pane of the window holds shows nothing.
pub proof fn law_missing_item_shows_nothing(
    items: Seq<PaneItem>,
    panes: Seq<Vec<PaneItem>>,
    item_id: u64,
)
    ensures
        (forall|i: int| 0 <= i < items.len() ==> (#[trigger] items[i]).item_id != item_id)
            ==> shown_in(items, item_id) is None,
        (forall|i: int| 0 <= i < panes.len() ==> shown_in((#[trigger] panes[i])@, item_id) is None)
            ==> shown_by(panes, item_id) is None,
    decreases items.len() + panes.len(),
{
    if items.len() > 0 {
        let rest = items.drop_first();
        law_missing_item_shows_nothing(rest, panes, item_id);
        if forall|i: int| 0 <= i < items.len() ==> (#[trigger] items[i]).item_id != item_id {
            assert forall|i: int| 0 <= i < rest.len() implies (#[trigger] rest[i]).item_id
                != item_id by {
                assert(rest[i] == items[i + 1]);
            }
            assert(items[0].item_id != item_id);
        }
    }
    if panes.len() > 0 {
        let rest = panes.drop_first();
        law_missing_item_shows_nothing(items, rest, item_id);
        if forall|i: int|
            0 <= i < panes.len() ==> shown_in((#[trigger] panes[i])@, item_id) is None {
            assert forall|i: int| 0 <= i < rest.len() implies shown_in(
                (#[trigger] rest[i])@,
                item_id,
            ) is None by {
                assert(rest[i] == panes[i + 1]);
            }
            assert(shown_in(panes[0]@, item_id) is None);
        }
    }
}

/// The first pane that shows something for an item decides.
pub proof fn law_first_pane_decides_what_is_shown(
    panes: Seq<Vec<PaneItem>>,
    item_id: u64,
    at: int,
)
    requires
        0 <= at < panes.len(),
        shown_in(panes[at]@, item_id) is Some,
        forall|i: int| 0 <= i < at ==> shown_in((#[trigger] panes[i])@, item_id) is None,
    ensures
        shown_by(panes, item_id) == shown_in(panes[at]@, item_id),
    decreases panes.len(),
{
    if at > 0 {
        let rest = panes.drop_first();
        assert forall|i: int| 0 <= i < at - 1 implies shown_in(
            (#[trigger] rest[i])@,
            item_id,
        ) is None by {
            assert(rest[i] == panes[i + 1]);
        }
        assert(shown_in(panes[0]@, item_id) is None);
        law_first_pane_decides_what_is_shown(rest, item_id, at - 1);
    }
}

/// A failure is told with what was tried, what it concerned and why it failed.
pub proof fn law_failure_says_what_was_tried(subject: Seq<char>, error: Seq<char>)
    ensures
        failure_text(MuxFailure::Focus, subject, error) == "Failed to focus mux pane "@ + subject
            + ": "@ + error,
        failure_text(MuxFailure::Split, subject, error) == "Failed to split mux pane "@ + subject
            + ": "@ + error,
        failure_text(MuxFailure::Close, subject, error) == "Failed to close mux pane "@ + subject
            + ": "@ + error,
        failure_text(MuxFailure::FindSession, subject, error)
            == "Failed to find a mux session for the new tab"@ + ": "@ + error,
        failure_text(MuxFailure::CreateTab, subject, error)
            == "Failed to create mux tab in session "@ + subject + ": "@ + error,
{
}

} // verus!
