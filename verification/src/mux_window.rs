//! What a window does with its connection to a multiplexer.
//!
//! A window holds its own connection and renders one session. The functions here say which
//! pane a command goes to, what is asked of the server, and what an answer leads to; sending,
//! drawing and focusing is left to the surface.
use std::collections::HashMap;
use std::sync::Arc;

use vstd::prelude::*;
use vstd::std_specs::hash::*;
use vstd::string::*;

use crate::id_set::IdSet;
use crate::text::{chars_of, comes_before, same_text};
use crate::text_map::TextMap;

verus! {

broadcast use group_hash_axioms;

/// Identifies a window of this process.
pub type WindowId = u64;

/// Identifies a connection of this process.
pub type DomainId = u64;

/// The largest file that a request may open, in bytes.
pub const MAX_OPEN_FILE_BYTES: u64 = 2_097_152;

/// Where a request to open a file goes.
#[derive(Clone, Copy, Debug, PartialEq, Eq, Structural)]
pub enum OpenFileRoute {
    /// To the window.
    Matched,
    /// Nowhere: the window has no session.
    Unbound,
    /// Nowhere: the window renders another session.
    WrongSession,
}

/// The place next to a place in a ring of places.
pub fn cyclic_pane_index(current: usize, pane_count: usize, forward: bool) -> (index: Option<
    usize,
>)
    ensures
        index is Some <==> current < pane_count,
        index matches Some(index) ==> index < pane_count && index == (if forward {
            (current + 1) % pane_count as int
        } else {
            (current - 1) % pane_count as int
        }),
{
    if pane_count == 0 || current >= pane_count {
        return None;
    }
    proof {
        if current + 1 < pane_count {
            vstd::arithmetic::div_mod::lemma_small_mod((current + 1) as nat, pane_count as nat);
        } else {
            vstd::arithmetic::div_mod::lemma_mod_self_0(pane_count as int);
        }
        if current == 0 {
            vstd::arithmetic::div_mod::lemma_mod_add_multiples_vanish(-1, pane_count as int);
            vstd::arithmetic::div_mod::lemma_small_mod((pane_count - 1) as nat, pane_count as nat);
        } else {
            vstd::arithmetic::div_mod::lemma_small_mod((current - 1) as nat, pane_count as nat);
        }
    }
    Some(
        if forward {
            if current + 1 == pane_count {
                0
            } else {
                current + 1
            }
        } else if current == 0 {
            pane_count - 1
        } else {
            current - 1
        },
    )
}

/// A step forward and a step back lead to the same place.
pub proof fn law_steps_cancel(current: int, pane_count: int)
    requires
        0 <= current < pane_count,
    ensures
        (((current + 1) % pane_count) - 1) % pane_count == current,
        (((current - 1) % pane_count) + 1) % pane_count == current,
{
    if current + 1 < pane_count {
        vstd::arithmetic::div_mod::lemma_small_mod((current + 1) as nat, pane_count as nat);
    } else {
        vstd::arithmetic::div_mod::lemma_mod_self_0(pane_count);
        vstd::arithmetic::div_mod::lemma_mod_add_multiples_vanish(-1, pane_count);
        vstd::arithmetic::div_mod::lemma_small_mod((pane_count - 1) as nat, pane_count as nat);
    }
    if current == 0 {
        vstd::arithmetic::div_mod::lemma_mod_add_multiples_vanish(-1, pane_count);
        vstd::arithmetic::div_mod::lemma_small_mod((pane_count - 1) as nat, pane_count as nat);
        vstd::arithmetic::div_mod::lemma_mod_self_0(pane_count);
    } else {
        vstd::arithmetic::div_mod::lemma_small_mod((current - 1) as nat, pane_count as nat);
    }
    vstd::arithmetic::div_mod::lemma_small_mod(current as nat, pane_count as nat);
}

/// The state of a window's connection.
#[derive(Clone, Copy, Debug, PartialEq, Eq, Structural)]
pub enum MuxConnectionState {
    /// It is there.
    Connected,
    /// It is lost.
    Disconnected,
    /// It is lost and is being made again.
    Reconnecting,
}

impl Default for MuxConnectionState {
    fn default() -> (state: MuxConnectionState)
        ensures
            state == MuxConnectionState::Connected,
    {
        MuxConnectionState::Connected
    }
}

impl MuxConnectionState {
    /// Starts an attempt to connect again, unless one is under way.
    pub fn begin_reconnect(&mut self) -> (started: bool)
        ensures
            started == (*old(self) != MuxConnectionState::Reconnecting),
            *final(self) == MuxConnectionState::Reconnecting,
    {
        if *self == MuxConnectionState::Reconnecting {
            return false;
        }
        *self = MuxConnectionState::Reconnecting;
        true
    }

    /// Notes how the attempt ended.
    pub fn finish_reconnect(&mut self, succeeded: bool)
        ensures
            *final(self) == (if succeeded {
                MuxConnectionState::Connected
            } else {
                MuxConnectionState::Disconnected
            }),
    {
        *self =
        if succeeded {
            MuxConnectionState::Connected
        } else {
            MuxConnectionState::Disconnected
        };
    }

    /// Notes that the connection is lost, and says whether that is news.
    pub fn mark_disconnected(&mut self) -> (news: bool)
        ensures
            news == (*old(self) != MuxConnectionState::Disconnected),
            *final(self) == MuxConnectionState::Disconnected,
    {
        if *self == MuxConnectionState::Disconnected {
            return false;
        }
        *self = MuxConnectionState::Disconnected;
        true
    }
}

/// How a text is coloured.
#[derive(Clone, Copy, Debug, PartialEq, Eq, Structural)]
pub enum StatusColor {
    /// As an error.
    Error,
    /// As a warning.
    Warning,
}

/// What the connection indicator shows and announces.
#[derive(Debug)]
pub struct StatusRendering {
    /// What a screen reader announces.
    pub announcement: String,
    /// The text that is drawn and its colour; nothing while the connection is there.
    pub visible: Option<(&'static str, StatusColor)>,
}

/// The state of a connection as text.
pub open spec fn state_text(state: MuxConnectionState) -> Seq<char> {
    match state {
        MuxConnectionState::Connected => "Connected"@,
        MuxConnectionState::Disconnected => "Disconnected"@,
        MuxConnectionState::Reconnecting => "Reconnecting…"@,
    }
}

/// The colour of a state, where it is drawn.
pub open spec fn state_color(state: MuxConnectionState) -> Option<StatusColor> {
    match state {
        MuxConnectionState::Connected => None,
        MuxConnectionState::Disconnected => Some(StatusColor::Error),
        MuxConnectionState::Reconnecting => Some(StatusColor::Warning),
    }
}

/// A window's connection indicator.
#[derive(Debug)]
pub struct MuxConnectionStatusItem {
    /// The state that is shown.
    pub state: MuxConnectionState,
}

impl MuxConnectionStatusItem {
    /// The indicator of a connection that is there.
    pub fn new() -> (item: MuxConnectionStatusItem)
        ensures
            item.state == MuxConnectionState::Connected,
    {
        MuxConnectionStatusItem { state: MuxConnectionState::Connected }
    }

    /// Shows a state, and says whether anything has to be drawn anew.
    pub fn set_state(&mut self, state: MuxConnectionState) -> (changed: bool)
        ensures
            final(self).state == state,
            changed == (old(self).state != state),
    {
        if self.state == state {
            return false;
        }
        self.state = state;
        true
    }

    /// What is shown and announced. A connection that came back is announced, though nothing
    /// is drawn for it.
    pub fn render(&self) -> (rendering: StatusRendering)
        ensures
            rendering.announcement@ == "Mux connection: "@ + state_text(self.state),
            match (rendering.visible, state_color(self.state)) {
                (Some((text, color)), Some(expected)) => text@ == state_text(self.state) && color
                    == expected,
                (None, None) => true,
                _ => false,
            },
    {
        let (text, color): (&'static str, Option<StatusColor>) = match self.state {
            MuxConnectionState::Connected => ("Connected", None),
            MuxConnectionState::Disconnected => ("Disconnected", Some(StatusColor::Error)),
            MuxConnectionState::Reconnecting => ("Reconnecting…", Some(StatusColor::Warning)),
        };
        let mut announcement = String::new();
        announcement.append("Mux connection: ");
        announcement.append(text);
        assert(announcement@ =~= "Mux connection: "@ + state_text(self.state));
        StatusRendering {
            announcement,
            visible: match color {
                Some(color) => Some((text, color)),
                None => None,
            },
        }
    }
}

/// A window's binding: its connection, the session that it renders, and the tunnel that the
/// connection runs through, where it is remote.
#[derive(Debug)]
pub struct MuxWindow<T> {
    /// The connection.
    pub domain: DomainId,
    /// The session.
    pub session_id: String,
    /// The tunnel.
    pub ssh_session: Option<Arc<T>>,
    /// The state of the connection.
    pub connection_state: MuxConnectionState,
}

/// `Arc::clone`: another handle of the same value.
#[verifier::external_body]
fn another_handle<T>(handle: &Arc<T>) -> (other: Arc<T>)
    ensures
        other == *handle,
{
    Arc::clone(handle)
}

/// A binding after its window was bound to a connection and a session: a tunnel that the
/// window held is kept, and so is the state of the connection.
pub open spec fn rebound<T>(
    previous: Option<MuxWindow<T>>,
    domain: DomainId,
    session: Seq<char>,
    ssh_session: Option<T>,
    now: MuxWindow<T>,
) -> bool {
    &&& now.domain == domain
    &&& now.session_id@ == session
    &&& now.ssh_session == (match previous {
        Some(MuxWindow { ssh_session: Some(held), .. }) => Some(held),
        _ => match ssh_session {
            Some(given) => Some(Arc::new(given)),
            None => None,
        },
    })
    &&& now.connection_state == (match previous {
        Some(window) => window.connection_state,
        None => MuxConnectionState::Connected,
    })
}

/// What a map holds for a window.
pub open spec fn bound<T>(windows: Map<WindowId, MuxWindow<T>>, window_id: WindowId) -> Option<
    MuxWindow<T>,
> {
    if windows.contains_key(window_id) {
        Some(windows[window_id])
    } else {
        None
    }
}

/// Binds a window to a connection and a session. A tunnel that the window holds outlives the
/// change: it is given up only with the binding itself.
pub fn rebind_mux_window<T>(
    windows: &mut HashMap<WindowId, MuxWindow<T>>,
    window_id: WindowId,
    domain: DomainId,
    session_id: String,
    ssh_session: Option<T>,
)
    ensures
        final(windows)@.dom() == old(windows)@.dom().insert(window_id),
        rebound(
            bound(old(windows)@, window_id),
            domain,
            session_id@,
            ssh_session,
            final(windows)@[window_id],
        ),
        forall|other: WindowId|
            other != window_id && old(windows)@.contains_key(other) ==> #[trigger] final(windows)@[other]
                == old(windows)@[other],
{
    let ghost before = windows@;
    let previous = windows.remove(&window_id);
    assert(previous == bound(before, window_id));
    let (held, connection_state) = match previous {
        Some(existing) => (existing.ssh_session, existing.connection_state),
        None => (None, MuxConnectionState::Connected),
    };
    let ssh_session = match held {
        Some(held) => Some(held),
        None => match ssh_session {
            Some(session) => Some(Arc::new(session)),
            None => None,
        },
    };
    windows.insert(window_id, MuxWindow { domain, session_id, ssh_session, connection_state });
    assert(windows@.dom() =~= before.dom().insert(window_id));
}

/// What an attempt to connect again needs.
#[derive(Debug)]
pub struct MuxReconnectRequest<T> {
    /// The connection.
    pub domain: DomainId,
    /// The session.
    pub session_id: String,
    /// The tunnel.
    pub ssh_session: Arc<T>,
}

/// Why a window does not connect again.
#[derive(Clone, Copy, Debug, PartialEq, Eq, Structural)]
pub enum MuxReconnectUnavailable {
    /// The window has no connection.
    WindowNotBound,
    /// The window's connection is local.
    LocalWindow,
    /// An attempt is under way.
    InProgress,
}

/// Starts an attempt of a window to connect again.
pub fn begin_mux_reconnect<T>(
    windows: &mut HashMap<WindowId, MuxWindow<T>>,
    window_id: WindowId,
) -> (request: Result<MuxReconnectRequest<T>, MuxReconnectUnavailable>)
    ensures
        match (bound(old(windows)@, window_id), request) {
            (None, Err(reason)) => reason == MuxReconnectUnavailable::WindowNotBound
                && final(windows)@ == old(windows)@,
            (Some(window), Err(reason)) => {
                &&& final(windows)@ == old(windows)@
                &&& reason == (if window.ssh_session is None {
                    MuxReconnectUnavailable::LocalWindow
                } else {
                    MuxReconnectUnavailable::InProgress
                })
                &&& window.ssh_session is Some ==> window.connection_state
                    == MuxConnectionState::Reconnecting
            },
            (Some(window), Ok(request)) => {
                &&& window.ssh_session == Some(request.ssh_session)
                &&& window.connection_state != MuxConnectionState::Reconnecting
                &&& request.domain == window.domain
                &&& request.session_id@ == window.session_id@
                &&& final(windows)@ == old(windows)@.insert(
                    window_id,
                    (MuxWindow { connection_state: MuxConnectionState::Reconnecting, ..window }),
                )
            },
            (None, Ok(_)) => false,
        },
{
    let ghost before = windows@;
    match windows.remove(&window_id) {
        None => {
            assert(windows@ =~= before);
            Err(MuxReconnectUnavailable::WindowNotBound)
        },
        Some(mut binding) => {
            let outcome = match &binding.ssh_session {
                None => Err(MuxReconnectUnavailable::LocalWindow),
                Some(session) => {
                    if binding.connection_state == MuxConnectionState::Reconnecting {
                        Err(MuxReconnectUnavailable::InProgress)
                    } else {
                        Ok(
                            MuxReconnectRequest {
                                domain: binding.domain,
                                session_id: binding.session_id.clone(),
                                ssh_session: another_handle(session),
                            },
                        )
                    }
                },
            };
            if outcome.is_ok() {
                binding.connection_state.begin_reconnect();
            }
            windows.insert(window_id, binding);
            proof {
                if outcome is Err {
                    assert(windows@ =~= before);
                } else {
                    assert(windows@ =~= before.insert(
                        window_id,
                        (MuxWindow {
                            connection_state: MuxConnectionState::Reconnecting,
                            ..before[window_id]
                        }),
                    ));
                }
            }
            outcome
        },
    }
}

/// Notes how a window's attempt to connect again ended, unless the window has another
/// connection by now. Says whether it was noted.
pub fn finish_mux_reconnect<T>(
    windows: &mut HashMap<WindowId, MuxWindow<T>>,
    window_id: WindowId,
    domain: DomainId,
    succeeded: bool,
) -> (noted: bool)
    ensures
        noted == (bound(old(windows)@, window_id) matches Some(window) && window.domain == domain),
        final(windows)@ == (if noted {
            old(windows)@.insert(
                window_id,
                (MuxWindow {
                    connection_state: if succeeded {
                        MuxConnectionState::Connected
                    } else {
                        MuxConnectionState::Disconnected
                    },
                    ..old(windows)@[window_id]
                }),
            )
        } else {
            old(windows)@
        }),
{
    let ghost before = windows@;
    match windows.remove(&window_id) {
        None => {
            assert(windows@ =~= before);
            false
        },
        Some(mut binding) => {
            let same = binding.domain == domain;
            if same {
                binding.connection_state.finish_reconnect(succeeded);
            }
            windows.insert(window_id, binding);
            proof {
                if same {
                    assert(windows@ =~= before.insert(window_id, binding));
                } else {
                    assert(windows@ =~= before);
                }
            }
            same
        },
    }
}

/// Notes that a remote window lost a connection, unless it has another one by now. Says
/// whether that is news.
pub fn mark_remote_mux_window_disconnected<T>(
    windows: &mut HashMap<WindowId, MuxWindow<T>>,
    window_id: WindowId,
    domain: DomainId,
) -> (news: bool)
    ensures
        news == (bound(old(windows)@, window_id) matches Some(window) && window.ssh_session is Some
            && window.domain == domain && window.connection_state
            != MuxConnectionState::Disconnected),
        final(windows)@ == (if news {
            old(windows)@.insert(
                window_id,
                (MuxWindow {
                    connection_state: MuxConnectionState::Disconnected,
                    ..old(windows)@[window_id]
                }),
            )
        } else {
            old(windows)@
        }),
{
    let ghost before = windows@;
    match windows.remove(&window_id) {
        None => {
            assert(windows@ =~= before);
            false
        },
        Some(mut binding) => {
            let news = if binding.ssh_session.is_none() || binding.domain != domain {
                false
            } else {
                binding.connection_state.mark_disconnected()
            };
            windows.insert(window_id, binding);
            proof {
                if news {
                    assert(windows@ =~= before.insert(window_id, binding));
                } else {
                    assert(windows@ =~= before);
                }
            }
            news
        },
    }
}

/// What the server tells of a session.
#[derive(Debug)]
pub enum SessionEvent {
    /// A window joined a session.
    WindowAdded {
        /// The session.
        session_id: String,
        /// The window.
        window_id: String,
    },
    /// A window left a session.
    WindowRemoved {
        /// The session.
        session_id: String,
        /// The window.
        window_id: String,
    },
    /// The layout of the session changed.
    SessionLayoutChanged(SessionLayoutChanged),
    /// Something else.
    Other,
}

/// A change of a session's layout.
#[derive(Debug)]
pub struct SessionLayoutChanged {
    /// Whether the new layout is given.
    pub has_layout: bool,
    /// The focused pane of the snapshot that is given, empty where none is focused.
    pub snapshot_focus: Option<String>,
}

/// The focused pane that a change of layout carries. An empty identifier means that no pane is
/// focused.
pub fn focused_pane_from_layout_change(change: &SessionLayoutChanged) -> (focused: Option<String>)
    ensures
        match (change.snapshot_focus, focused) {
            (Some(given), Some(focused)) => given@.len() > 0 && focused@ == given@,
            (Some(given), None) => given@.len() == 0,
            (None, focused) => focused is None,
        },
{
    match &change.snapshot_focus {
        Some(pane_id) => if chars_of(pane_id.as_str()).len() == 0 {
            None
        } else {
            Some(pane_id.clone())
        },
        None => None,
    }
}

/// The members of a session, as texts.
pub open spec fn texts(members: Seq<String>) -> Seq<Seq<char>> {
    members.map_values(|member: String| member@)
}

/// The members of a session ascend in the order of text.
pub open spec fn in_text_order(members: Seq<Seq<char>>) -> bool {
    forall|i: int, j: int|
        0 <= i < j < members.len() ==> crate::text::text_before(
            #[trigger] members[i],
            #[trigger] members[j],
        )
}

/// The windows of a session.
pub open spec fn members_of(roster: Map<Seq<char>, Vec<String>>, session_id: Seq<char>) -> Set<
    Seq<char>,
> {
    if roster.contains_key(session_id) {
        texts(roster[session_id]@).to_set()
    } else {
        Set::empty()
    }
}

/// The windows of a session after an event.
pub open spec fn members_after(
    members: Set<Seq<char>>,
    session_id: Seq<char>,
    event: SessionEvent,
) -> Set<Seq<char>> {
    match event {
        SessionEvent::WindowAdded { session_id: joined, window_id } => if joined@ == session_id {
            members.insert(window_id@)
        } else {
            members
        },
        SessionEvent::WindowRemoved { session_id: left, window_id } => if left@ == session_id {
            members.remove(window_id@)
        } else {
            members
        },
        _ => members,
    }
}

/// A list with a text more, which stands where the order wants it.
fn add_member(members: &mut Vec<String>, member: &str)
    requires
        in_text_order(texts(old(members)@)),
    ensures
        in_text_order(texts(final(members)@)),
        texts(final(members)@).to_set() == texts(old(members)@).to_set().insert(member@),
        final(members)@.len() > 0,
{
    let ghost before = texts(members@);
    let wanted = chars_of(member);
    let mut at: usize = 0;
    while at < members.len() && comes_before(&chars_of(members[at].as_str()), &wanted)
        invariant
            at <= members@.len(),
            texts(members@) == before,
            wanted@ == member@,
            forall|i: int|
                0 <= i < at ==> crate::text::text_before(#[trigger] before[i], member@),
        decreases members@.len() - at,
    {
        assert(before[at as int] == members@[at as int]@);
        at += 1;
    }
    if at < members.len() && same_text(members[at].as_str(), member) {
        assert(before[at as int] == member@);
        assert(before.to_set().contains(member@));
        assert(before.to_set() =~= before.to_set().insert(member@));
        return ;
    }
    members.insert(at, member.to_owned());
    proof {
        let after = texts(members@);
        assert(after =~= before.insert(at as int, member@));
        if at < before.len() {
            crate::text::lemma_text_order(before[at as int], member@);
        }
        assert forall|i: int, j: int| 0 <= i < j < after.len() implies crate::text::text_before(
            #[trigger] after[i],
            #[trigger] after[j],
        ) by {
            if i == at {
                assert(after[j] == before[j - 1]);
                if j - 1 > at {
                    assert(crate::text::text_before(before[at as int], before[j - 1]));
                    crate::text::lemma_text_order_transitive(
                        member@,
                        before[at as int],
                        before[j - 1],
                    );
                }
            } else if j == at {
                assert(after[i] == before[i]);
            } else {
                let from = if i < at {
                    i
                } else {
                    i - 1
                };
                let to = if j < at {
                    j
                } else {
                    j - 1
                };
                assert(after[i] == before[from]);
                assert(after[j] == before[to]);
                assert(crate::text::text_before(before[from], before[to]));
            }
        }
        assert forall|x: Seq<char>| after.contains(x) <==> before.contains(x) || x == member@ by {
            if before.contains(x) {
                let i = choose|i: int| 0 <= i < before.len() && before[i] == x;
                if i < at {
                    assert(after[i] == x);
                } else {
                    assert(after[i + 1] == x);
                }
            }
            if after.contains(x) && x != member@ {
                let i = choose|i: int| 0 <= i < after.len() && after[i] == x;
                if i < at {
                    assert(before[i] == x);
                } else {
                    assert(before[i - 1] == x);
                }
            }
            assert(after[at as int] == member@);
        }
        assert(after.to_set() =~= before.to_set().insert(member@));
    }
}

/// A list without a text.
fn drop_member(members: &mut Vec<String>, member: &str)
    requires
        in_text_order(texts(old(members)@)),
    ensures
        in_text_order(texts(final(members)@)),
        texts(final(members)@).to_set() == texts(old(members)@).to_set().remove(member@),
{
    let ghost before = texts(members@);
    let mut at: usize = 0;
    while at < members.len() && !same_text(members[at].as_str(), member)
        invariant
            at <= members@.len(),
            texts(members@) == before,
            forall|i: int| 0 <= i < at ==> #[trigger] before[i] != member@,
        decreases members@.len() - at,
    {
        assert(before[at as int] == members@[at as int]@);
        at += 1;
    }
    if at < members.len() {
        members.remove(at);
        proof {
            let after = texts(members@);
            assert(before[at as int] == member@);
            assert(after =~= before.remove(at as int));
            assert forall|i: int| 0 <= i < after.len() implies #[trigger] after[i] == before[if i
                < at {
                i
            } else {
                i + 1
            }] by {}
            assert forall|i: int, j: int| 0 <= i < j < after.len() implies crate::text::text_before(
                #[trigger] after[i],
                #[trigger] after[j],
            ) by {
                let from = if i < at {
                    i
                } else {
                    i + 1
                };
                let to = if j < at {
                    j
                } else {
                    j + 1
                };
                assert(crate::text::text_before(before[from], before[to]));
            }
            assert forall|x: Seq<char>| after.contains(x) <==> before.contains(x) && x != member@ by {
                if after.contains(x) {
                    let i = choose|i: int| 0 <= i < after.len() && after[i] == x;
                    let k = if i < at {
                        i
                    } else {
                        i + 1
                    };
                    assert(before[k] == x);
                    crate::text::lemma_text_order(before[k], member@);
                    if k < at {
                        assert(crate::text::text_before(before[k], before[at as int]));
                    } else {
                        assert(crate::text::text_before(before[at as int], before[k]));
                        crate::text::lemma_text_order(member@, before[k]);
                    }
                }
                if before.contains(x) && x != member@ {
                    let i = choose|i: int| 0 <= i < before.len() && before[i] == x;
                    if i < at {
                        assert(after[i] == x);
                    } else {
                        assert(after[i - 1] == x);
                    }
                }
            }
            assert(after.to_set() =~= before.to_set().remove(member@));
        }
    } else {
        assert(before.to_set() =~= before.to_set().remove(member@));
    }
}

/// The windows that this process owns, and what it knows of the windows of each session.
#[derive(Debug)]
pub struct MuxWindows<T> {
    /// The bindings of the windows of this process.
    pub windows: HashMap<WindowId, MuxWindow<T>>,
    /// The windows of each session, in the order of text; no session without windows.
    pub roster: TextMap<Vec<String>>,
    /// The windows that have a connection indicator.
    pub status_items: IdSet,
}

/// What a window does about something that the server told.
#[derive(Debug)]
pub enum SessionReaction {
    /// Nothing.
    Ignore,
    /// The window is going away: stop listening.
    Stop,
    /// Show the layout and focus a pane.
    ApplyLayout {
        /// The pane to focus.
        focused: Option<String>,
    },
    /// The windows of the session changed.
    Membership {
        /// The windows of the window's own session.
        windows: Vec<String>,
        /// What the user is told.
        error: Option<&'static str>,
    },
}

impl<T> Default for MuxWindows<T> {
    fn default() -> (windows: MuxWindows<T>)
        ensures
            windows.wf(),
            windows.windows@ == Map::<WindowId, MuxWindow<T>>::empty(),
            windows.roster@ == Map::<Seq<char>, Vec<String>>::empty(),
            windows.status_items@ == Set::<u64>::empty(),
    {
        MuxWindows::new()
    }
}

impl<T> MuxWindows<T> {
    /// Every listed session has windows, and they stand in order.
    pub open spec fn wf(&self) -> bool {
        &&& self.roster.wf()
        &&& forall|session_id: Seq<char>| #[trigger]
            self.roster@.contains_key(session_id) ==> in_text_order(
                texts(self.roster@[session_id]@),
            ) && self.roster@[session_id]@.len() > 0
    }

    /// No windows.
    pub fn new() -> (windows: MuxWindows<T>)
        ensures
            windows.wf(),
            windows.windows@ == Map::<WindowId, MuxWindow<T>>::empty(),
            windows.roster@ == Map::<Seq<char>, Vec<String>>::empty(),
            windows.status_items@ == Set::<u64>::empty(),
    {
        MuxWindows {
            windows: HashMap::new(),
            roster: TextMap::new(),
            status_items: IdSet::new(),
        }
    }

    /// Takes over that a window joined or left a session, and says whether the event was of
    /// that sort. An event that comes twice changes nothing the second time.
    pub fn apply_window_event(&mut self, event: &SessionEvent) -> (membership: bool)
        requires
            old(self).wf(),
        ensures
            final(self).wf(),
            final(self).windows@ == old(self).windows@,
            final(self).status_items@ == old(self).status_items@,
            membership == (event is WindowAdded || event is WindowRemoved),
            forall|session_id: Seq<char>| #[trigger]
                members_of(final(self).roster@, session_id) == members_after(
                    members_of(old(self).roster@, session_id),
                    session_id,
                    *event,
                ),
    {
        let ghost before = self.roster@;
        match event {
            SessionEvent::WindowAdded { session_id, window_id } => {
                let mut members = match self.roster.remove(session_id.as_str()) {
                    Some(members) => members,
                    None => Vec::new(),
                };
                let ghost former = texts(members@);
                proof {
                    if !before.contains_key(session_id@) {
                        assert(former =~= Seq::<Seq<char>>::empty());
                        assert(former.to_set() =~= Set::<Seq<char>>::empty());
                    }
                }
                add_member(&mut members, window_id.as_str());
                self.roster.insert(session_id.clone(), members);
                proof {
                    assert forall|other: Seq<char>| #[trigger] members_of(self.roster@, other)
                        == members_after(members_of(before, other), other, *event) by {
                        if other == session_id@ {
                            assert(self.roster@.contains_key(other));
                        }
                    }
                }
                true
            },
            SessionEvent::WindowRemoved { session_id, window_id } => {
                match self.roster.remove(session_id.as_str()) {
                    Some(mut members) => {
                        drop_member(&mut members, window_id.as_str());
                        let ghost left = texts(members@);
                        if members.len() > 0 {
                            self.roster.insert(session_id.clone(), members);
                        } else {
                            assert(left.to_set() =~= Set::<Seq<char>>::empty());
                        }
                        proof {
                            assert forall|other: Seq<char>| #[trigger] members_of(
                                self.roster@,
                                other,
                            ) == members_after(members_of(before, other), other, *event) by {
                                if other == session_id@ {
                                    assert(members_of(before, other).remove(window_id@)
                                        == left.to_set());
                                }
                            }
                        }
                    },
                    None => {
                        assert(self.roster@ =~= before);
                        assert forall|other: Seq<char>| #[trigger] members_of(self.roster@, other)
                            == members_after(members_of(before, other), other, *event) by {
                            assert(members_of(before, session_id@).remove(window_id@)
                                =~= members_of(before, session_id@));
                        }
                    },
                }
                true
            },
            _ => false,
        }
    }

    /// The windows of a session, in the order of text.
    pub fn session_window_ids(&self, session_id: &str) -> (ids: Vec<String>)
        requires
            self.wf(),
        ensures
            in_text_order(texts(ids@)),
            texts(ids@).to_set() == members_of(self.roster@, session_id@),
    {
        let mut ids: Vec<String> = Vec::new();
        match self.roster.get(session_id) {
            Some(members) => {
                assert(self.roster@.contains_key(session_id@));
                let mut i: usize = 0;
                while i < members.len()
                    invariant
                        i <= members@.len(),
                        texts(ids@) == texts(members@).take(i as int),
                    decreases members@.len() - i,
                {
                    let ghost so_far = texts(ids@);
                    ids.push(members[i].clone());
                    i += 1;
                    proof {
                        assert(texts(ids@) =~= so_far.push(members@[i - 1]@));
                        assert(texts(members@).take(i as int) =~= texts(members@).take(i - 1).push(
                            texts(members@)[i - 1],
                        ));
                    }
                }
                assert(texts(members@).take(members@.len() as int) =~= texts(members@));
            },
            None => {
                assert(texts(ids@) =~= Seq::<Seq<char>>::empty());
                assert(texts(ids@).to_set() =~= Set::<Seq<char>>::empty());
            },
        }
        ids
    }

    /// What a window does about something that the server told. `own_window` is the identifier
    /// that the server gave it, and `alive` says whether the window still has its connection.
    pub fn handle_notification(
        &mut self,
        event: Option<&SessionEvent>,
        session_id: &str,
        own_window: &str,
        alive: bool,
    ) -> (reaction: SessionReaction)
        requires
            old(self).wf(),
        ensures
            final(self).wf(),
            final(self).windows@ == old(self).windows@,
            final(self).status_items@ == old(self).status_items@,
            event is None ==> reaction is Ignore,
            event matches Some(event) ==> {
                &&& forall|session: Seq<char>| #[trigger]
                    members_of(final(self).roster@, session) == members_after(
                        members_of(old(self).roster@, session),
                        session,
                        *event,
                    )
                &&& match *event {
                    SessionEvent::SessionLayoutChanged(change) => if !change.has_layout {
                        reaction is Ignore
                    } else if !alive {
                        reaction is Stop
                    } else {
                        reaction matches SessionReaction::ApplyLayout { focused } && match (
                            change.snapshot_focus,
                            focused,
                        ) {
                            (Some(given), Some(focused)) => given@.len() > 0 && focused@ == given@,
                            (Some(given), None) => given@.len() == 0,
                            (None, focused) => focused is None,
                        }
                    },
                    SessionEvent::WindowAdded { .. } => {
                        reaction matches SessionReaction::Membership { windows, error }
                            && in_text_order(texts(windows@)) && texts(windows@).to_set()
                            == members_of(final(self).roster@, session_id@) && error is None
                    },
                    SessionEvent::WindowRemoved { window_id, .. } => {
                        reaction matches SessionReaction::Membership { windows, error }
                            && in_text_order(texts(windows@)) && texts(windows@).to_set()
                            == members_of(final(self).roster@, session_id@) && match error {
                            Some(message) => window_id@ == own_window@ && message@
                                == "This window was removed from the mux session"@,
                            None => window_id@ != own_window@,
                        }
                    },
                    SessionEvent::Other => reaction is Ignore,
                }
            },
    {
        let event = match event {
            Some(event) => event,
            None => {
                return SessionReaction::Ignore;
            },
        };
        self.apply_window_event(event);
        match event {
            SessionEvent::SessionLayoutChanged(change) => {
                if !change.has_layout {
                    SessionReaction::Ignore
                } else if !alive {
                    SessionReaction::Stop
                } else {
                    SessionReaction::ApplyLayout { focused: focused_pane_from_layout_change(change) }
                }
            },
            SessionEvent::WindowAdded { .. } => {
                SessionReaction::Membership {
                    windows: self.session_window_ids(session_id),
                    error: None,
                }
            },
            SessionEvent::WindowRemoved { window_id, .. } => {
                SessionReaction::Membership {
                    windows: self.session_window_ids(session_id),
                    error: if same_text(window_id.as_str(), own_window) {
                        Some("This window was removed from the mux session")
                    } else {
                        None
                    },
                }
            },
            SessionEvent::Other => SessionReaction::Ignore,
        }
    }

    /// Binds a window to a connection and a session.
    pub fn register_mux_window(
        &mut self,
        window_id: WindowId,
        domain: DomainId,
        session_id: String,
        ssh_session: Option<T>,
    )
        ensures
            final(self).roster == old(self).roster,
            final(self).status_items == old(self).status_items,
            final(self).windows@.dom() == old(self).windows@.dom().insert(window_id),
            rebound(
                bound(old(self).windows@, window_id),
                domain,
                session_id@,
                ssh_session,
                final(self).windows@[window_id],
            ),
            forall|other: WindowId|
                other != window_id && old(self).windows@.contains_key(other)
                    ==> #[trigger] final(self).windows@[other] == old(self).windows@[other],
    {
        rebind_mux_window(&mut self.windows, window_id, domain, session_id, ssh_session);
    }

    /// Gives up a window: its binding and its indicator.
    pub fn take_mux_window(&mut self, window_id: WindowId) -> (window: Option<MuxWindow<T>>)
        ensures
            window == bound(old(self).windows@, window_id),
            final(self).windows@ == old(self).windows@.remove(window_id),
            final(self).status_items@ == old(self).status_items@.remove(window_id),
            final(self).roster == old(self).roster,
    {
        self.status_items.remove(window_id);
        self.windows.remove(&window_id)
    }

    /// The state that a window's indicator has to show, if the window is bound and has one.
    pub fn published_state(&self, window_id: WindowId) -> (state: Option<MuxConnectionState>)
        ensures
            state == (match bound(self.windows@, window_id) {
                Some(window) => if self.status_items@.contains(window_id) {
                    Some(window.connection_state)
                } else {
                    None
                },
                None => None,
            }),
    {
        match self.windows.get(&window_id) {
            Some(window) => if self.status_items.contains(window_id) {
                Some(window.connection_state)
            } else {
                None
            },
            None => None,
        }
    }

    /// The connection that a window uses: its own, or the one that all windows share.
    pub fn mux_domain_for_window(
        &self,
        window_id: WindowId,
        shared: Option<DomainId>,
    ) -> (domain: Option<DomainId>)
        ensures
            domain == (match bound(self.windows@, window_id) {
                Some(window) => Some(window.domain),
                None => shared,
            }),
    {
        match self.windows.get(&window_id) {
            Some(window) => Some(window.domain),
            None => shared,
        }
    }

    /// The session that a window renders, if it has a binding of its own.
    pub fn mux_session_for_window(&self, window_id: WindowId) -> (session_id: Option<String>)
        ensures
            match (bound(self.windows@, window_id), session_id) {
                (Some(window), Some(session_id)) => session_id@ == window.session_id@,
                (None, None) => true,
                _ => false,
            },
    {
        match self.windows.get(&window_id) {
            Some(window) => Some(window.session_id.clone()),
            None => None,
        }
    }

    /// The connection and the session of a window, if it has a binding of its own.
    pub fn mux_binding_for_window(&self, window_id: WindowId) -> (binding: Option<
        (DomainId, String),
    >)
        ensures
            match (bound(self.windows@, window_id), binding) {
                (Some(window), Some(binding)) => binding.0 == window.domain && binding.1@
                    == window.session_id@,
                (None, None) => true,
                _ => false,
            },
    {
        match self.windows.get(&window_id) {
            Some(window) => Some((window.domain, window.session_id.clone())),
            None => None,
        }
    }
}

/// An event that comes twice changes nothing the second time.
pub proof fn law_membership_events_are_idempotent(
    members: Set<Seq<char>>,
    session_id: Seq<char>,
    event: SessionEvent,
)
    ensures
        members_after(members_after(members, session_id, event), session_id, event)
            == members_after(members, session_id, event),
{
    let once = members_after(members, session_id, event);
    assert(members_after(once, session_id, event) =~= once);
}

/// A window that joined and left is a member no longer, whatever else the session has.
pub proof fn law_left_window_is_no_member(
    members: Set<Seq<char>>,
    session_id: String,
    window_id: String,
)
    ensures
        !members_after(
            members_after(
                members,
                session_id@,
                SessionEvent::WindowAdded { session_id, window_id },
            ),
            session_id@,
            SessionEvent::WindowRemoved { session_id, window_id },
        ).contains(window_id@),
{
}

/// Each state of a connection is shown under its name, and only a connection that is there draws
/// no attention.
pub proof fn law_states_are_told_apart(state: MuxConnectionState)
    ensures
        state == MuxConnectionState::Connected <==> state_color(state) is None,
        state == MuxConnectionState::Disconnected <==> state_color(state) == Some(
            StatusColor::Error,
        ),
        state == MuxConnectionState::Reconnecting <==> state_color(state) == Some(
            StatusColor::Warning,
        ),
        state == MuxConnectionState::Connected ==> state_text(state) == "Connected"@,
        state == MuxConnectionState::Disconnected ==> state_text(state) == "Disconnected"@,
        state == MuxConnectionState::Reconnecting ==> state_text(state) == "Reconnecting…"@,
{
}

/// A window that is bound anew has the connection and the session it was given; the tunnel that it
/// held stays, and one that it is given counts only where it held none. Its state stays, and that of
/// a window bound for the first time is connected.
pub proof fn law_tunnel_outlives_a_new_binding<T>(
    previous: MuxWindow<T>,
    domain: DomainId,
    session: Seq<char>,
    ssh_session: Option<T>,
    now: MuxWindow<T>,
)
    ensures
        rebound(Some(previous), domain, session, ssh_session, now) ==> now.domain == domain
            && now.session_id@ == session && now.connection_state == previous.connection_state && (
        previous.ssh_session is Some ==> now.ssh_session == previous.ssh_session) && (
        previous.ssh_session is None ==> (now.ssh_session is Some <==> ssh_session is Some)),
        rebound(None, domain, session, ssh_session, now) ==> now.domain == domain
            && now.session_id@ == session && now.connection_state == MuxConnectionState::Connected
            && (now.ssh_session is Some <==> ssh_session is Some),
        previous.ssh_session is None || rebound(
            Some(previous),
            domain,
            session,
            ssh_session,
            MuxWindow { domain, ..previous },
        ) == (previous.session_id@ == session),
{
}

/// A window that joins a session is a member of it and of no other session; one that leaves is a
/// member of it no longer, and stays one of the others. Every other window stays what it was.
pub proof fn law_membership_concerns_its_session(
    members: Set<Seq<char>>,
    session: Seq<char>,
    other: Seq<char>,
    joined: String,
    window_id: String,
)
    ensures
        members_after(
            members,
            joined@,
            SessionEvent::WindowAdded { session_id: joined, window_id },
        ).contains(window_id@),
        !members_after(
            members,
            joined@,
            SessionEvent::WindowRemoved { session_id: joined, window_id },
        ).contains(window_id@),
        session != joined@ ==> members_after(
            members,
            session,
            SessionEvent::WindowAdded { session_id: joined, window_id },
        ) == members && members_after(
            members,
            session,
            SessionEvent::WindowRemoved { session_id: joined, window_id },
        ) == members,
        other != window_id@ ==> (members_after(
            members,
            session,
            SessionEvent::WindowAdded { session_id: joined, window_id },
        ).contains(other) <==> members.contains(other)) && (members_after(
            members,
            session,
            SessionEvent::WindowRemoved { session_id: joined, window_id },
        ).contains(other) <==> members.contains(other)),
        members_after(members, session, SessionEvent::Other) == members,
{
}

} // verus!
