//! Sessions: tabs, panes, the layout, and the clients attached to them.
use crate::clock::unix_millis;
use crate::layout::LayoutTree;
use crate::pane::Pane;
use crate::text::same_text;
use crate::text_map::TextMap;
use vstd::prelude::*;

verus! {

/// How a client attaches.
#[derive(Clone, Copy, Debug, PartialEq, Eq, Hash, Structural)]
pub enum AttachMode {
    /// Several clients at once.
    Shared,
    /// Other clients are disconnected.
    Steal,
    /// Reading only.
    ReadOnly,
}

/// What a client may do.
#[derive(Clone, Copy, Debug, PartialEq, Eq, Structural)]
pub enum ClientRole {
    ReadOnly,
    ReadWrite,
    Admin,
}

impl Default for ClientRole {
    fn default() -> (role: Self)
        ensures
            role == ClientRole::ReadWrite,
    {
        ClientRole::ReadWrite
    }
}

/// A client that is attached to a session.
#[derive(Clone, Debug)]
pub struct AttachedClient {
    pub client_id: String,
    pub mode: AttachMode,
    /// The window it shows the session in, if it has one.
    pub window_id: Option<String>,
    pub role: ClientRole,
}

/// A tab of a session.
#[derive(Clone, Debug)]
pub struct Tab {
    pub id: String,
    pub title: String,
    pub pane_ids: Vec<String>,
}

/// A session.
pub struct Session {
    pub id: String,
    pub name: String,
    pub cwd: String,
    /// When it was created, in Unix milliseconds.
    pub created_timestamp: u64,
    /// Tabs by id.
    pub tabs: TextMap<Tab>,
    pub layout: LayoutTree,
    pub focused_pane: Option<String>,
    pub focused_tab: Option<String>,
    pub attached_clients: Vec<AttachedClient>,
    /// Panes by id.
    pub panes: TextMap<Pane>,
}

/// The clients without those of one id.
pub open spec fn without_client(clients: Seq<AttachedClient>, client_id: Seq<char>) -> Seq<
    AttachedClient,
>
    decreases clients.len(),
{
    if clients.len() == 0 {
        Seq::empty()
    } else {
        let head = without_client(clients.drop_last(), client_id);
        if clients.last().client_id@ == client_id {
            head
        } else {
            head.push(clients.last())
        }
    }
}

impl Session {
    /// Tab and pane ids are distinct, and the layout is in order.
    pub open spec fn wf(&self) -> bool {
        self.tabs.wf() && self.panes.wf() && self.layout.wf()
    }

    /// A new session, stamped with the clock's time.
    pub fn new(id: String, name: String, cwd: String) -> (session: Self)
        ensures
            session.is_fresh(id@, name@, cwd@),
    {
        Self::created_at(id, name, cwd, unix_millis())
    }

    /// A session with nothing in it.
    pub open spec fn is_fresh(&self, id: Seq<char>, name: Seq<char>, cwd: Seq<char>) -> bool {
        &&& self.wf()
        &&& self.id@ == id
        &&& self.name@ == name
        &&& self.cwd@ == cwd
        &&& self.tabs@ == Map::<Seq<char>, Tab>::empty()
        &&& self.layout.root@ == (crate::layout::LayoutView::Pane {
            id: Seq::empty(),
            pane_id: Seq::empty(),
        })
        &&& self.focused_pane is None
        &&& self.focused_tab is None
        &&& self.attached_clients@ == Seq::<AttachedClient>::empty()
        &&& self.panes@ == Map::<Seq<char>, Pane>::empty()
        &&& self.panes.keys().len() == 0
    }

    /// A new session, stamped with a given time.
    pub fn created_at(id: String, name: String, cwd: String, created_timestamp: u64) -> (session:
        Self)
        ensures
            session.is_fresh(id@, name@, cwd@),
            session.created_timestamp == created_timestamp,
    {
        Session {
            id,
            name,
            cwd,
            created_timestamp,
            tabs: TextMap::new(),
            layout: LayoutTree::empty(),
            focused_pane: None,
            focused_tab: None,
            attached_clients: Vec::new(),
            panes: TextMap::new(),
        }
    }

    /// Everything but tabs, focus and clients is that of `other`.
    pub open spec fn same_base(&self, other: &Session) -> bool {
        &&& self.id == other.id
        &&& self.name == other.name
        &&& self.cwd == other.cwd
        &&& self.created_timestamp == other.created_timestamp
        &&& self.layout == other.layout
        &&& self.focused_tab == other.focused_tab
        &&& self.panes == other.panes
    }

    /// Add a tab without panes, in place of one with the same id.
    pub fn add_tab(&mut self, id: String, title: String)
        requires
            old(self).wf(),
        ensures
            final(self).wf(),
            final(self).same_base(old(self)),
            final(self).focused_pane == old(self).focused_pane,
            final(self).attached_clients == old(self).attached_clients,
            exists|tab: Tab|
                #![trigger old(self).tabs@.insert(id@, tab)]
                final(self).tabs@ == old(self).tabs@.insert(id@, tab) && tab.id@ == id@
                    && tab.title@ == title@ && tab.pane_ids@ == Seq::<String>::empty(),
    {
        let tab = Tab { id: id.clone(), title, pane_ids: Vec::new() };
        self.tabs.insert(id, tab);
        assert(self.tabs@ == old(self).tabs@.insert(id@, tab));
    }

    /// The pane that has the focus.
    pub fn get_focused_pane(&self) -> (pane_id: Option<&str>)
        ensures
            pane_id is Some <==> self.focused_pane is Some,
            pane_id matches Some(p) ==> p@ == self.focused_pane->0@,
    {
        match &self.focused_pane {
            Some(id) => Some(id.as_str()),
            None => None,
        }
    }

    /// Give a pane the focus.
    pub fn set_focused_pane(&mut self, pane_id: String)
        ensures
            final(self).focused_pane is Some,
            final(self).focused_pane->0@ == pane_id@,
            final(self).same_base(old(self)),
            final(self).tabs == old(self).tabs,
            final(self).attached_clients == old(self).attached_clients,
    {
        self.focused_pane = Some(pane_id);
    }

    /// Attach a client, with the default role and no window.
    pub fn add_attached_client(&mut self, client_id: String, mode: AttachMode)
        ensures
            final(self).attached_clients@.len() == old(self).attached_clients@.len() + 1,
            final(self).attached_clients@.drop_last() == old(self).attached_clients@,
            ({
                let client = final(self).attached_clients@.last();
                &&& client.client_id@ == client_id@
                &&& client.mode == mode
                &&& client.window_id is None
                &&& client.role == ClientRole::ReadWrite
            }),
            final(self).same_base(old(self)),
            final(self).tabs == old(self).tabs,
            final(self).focused_pane == old(self).focused_pane,
    {
        self.attached_clients.push(
            AttachedClient { client_id, mode, window_id: None, role: ClientRole::default() },
        );
        assert(self.attached_clients@.drop_last() =~= old(self).attached_clients@);
    }

    /// Detach a client, wherever it is attached.
    pub fn remove_attached_client(&mut self, client_id: &str)
        ensures
            final(self).attached_clients@ == without_client(
                old(self).attached_clients@,
                client_id@,
            ),
            final(self).same_base(old(self)),
            final(self).tabs == old(self).tabs,
            final(self).focused_pane == old(self).focused_pane,
    {
        let ghost all = self.attached_clients@;
        let mut i: usize = 0;
        let mut seen: usize = 0;
        let total = self.attached_clients.len();
        assert(all.take(0) =~= Seq::<AttachedClient>::empty());
        assert(all.skip(0) =~= all);
        while seen < total
            invariant
                seen <= total == all.len(),
                i <= self.attached_clients@.len(),
                self.attached_clients@.take(i as int) == without_client(
                    all.take(seen as int),
                    client_id@,
                ),
                self.attached_clients@.skip(i as int) == all.skip(seen as int),
                self.attached_clients@.len() == i + (total - seen),
                self.same_base(old(self)),
                self.tabs == old(self).tabs,
                self.focused_pane == old(self).focused_pane,
            decreases total - seen,
        {
            let ghost now = self.attached_clients@;
            assert(now.skip(i as int)[0] == all.skip(seen as int)[0]);
            assert(now[i as int] == all[seen as int]);
            assert(all.take(seen + 1).drop_last() =~= all.take(seen as int));
            if same_text(self.attached_clients[i].client_id.as_str(), client_id) {
                self.attached_clients.remove(i);
                assert(self.attached_clients@.take(i as int) =~= now.take(i as int));
                assert(self.attached_clients@.skip(i as int) =~= now.skip(i as int).skip(1));
            } else {
                assert(now.take(i + 1) =~= now.take(i as int).push(now[i as int]));
                assert(now.skip(i + 1) =~= now.skip(i as int).skip(1));
                assert(i < self.attached_clients.len());
                i += 1;
            }
            assert(all.skip(seen as int).skip(1) =~= all.skip(seen + 1));
            seen += 1;
        }
        assert(all.take(seen as int) =~= all);
        assert(self.attached_clients@.take(i as int) =~= self.attached_clients@);
    }

    /// How many clients are attached, in 32 bits.
    pub fn attached_client_count(&self) -> (n: u32)
        ensures
            n == self.attached_clients@.len() as u32,
    {
        self.attached_clients.len() as u32
    }

    /// Whether the session has no pane.
    pub fn is_empty(&self) -> (empty: bool)
        ensures
            empty == (self.panes.keys().len() == 0),
    {
        self.panes.len() == 0
    }
}

/// After a client is detached it is attached nowhere, and no other client is affected.
pub proof fn law_detached_client_is_gone(
    clients: Seq<AttachedClient>,
    client_id: Seq<char>,
    other: AttachedClient,
)
    ensures
        forall|i: int|
            0 <= i < without_client(clients, client_id).len() ==> (
            #[trigger] without_client(clients, client_id)[i]).client_id@ != client_id,
        other.client_id@ != client_id ==> (without_client(clients, client_id).contains(other)
            <==> clients.contains(other)),
        without_client(clients, client_id).len() <= clients.len(),
    decreases clients.len(),
{
    if clients.len() > 0 {
        let head = clients.drop_last();
        law_detached_client_is_gone(head, client_id, other);
        let kept = without_client(head, client_id);
        let out = without_client(clients, client_id);
        if other.client_id@ != client_id {
            if clients.contains(other) {
                let k = choose|k: int| 0 <= k < clients.len() && clients[k] == other;
                if k < head.len() {
                    assert(head[k] == other);
                    assert(kept.contains(other));
                    let j = choose|j: int| 0 <= j < kept.len() && kept[j] == other;
                    assert(out[j] == other);
                } else {
                    assert(out[out.len() - 1] == other);
                }
            }
            if out.contains(other) {
                let j = choose|j: int| 0 <= j < out.len() && out[j] == other;
                if j < kept.len() {
                    assert(kept[j] == other);
                    assert(head.contains(other));
                    let k = choose|k: int| 0 <= k < head.len() && head[k] == other;
                    assert(clients[k] == other);
                } else {
                    assert(clients[clients.len() - 1] == other);
                }
            }
        }
    }
}

} // verus!
