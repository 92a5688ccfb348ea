//! Notifications in the order of their identifiers.
use vstd::prelude::*;

verus! {

/// One notification.
#[derive(Debug, PartialEq, Eq)]
pub struct NotificationEntry {
    /// Identifies the notification; later ones have larger identifiers.
    pub id: u64,
    /// What the notification says.
    pub notification: String,
    /// When it came, in nanoseconds since the epoch.
    pub timestamp: i128,
    /// Whether it was read.
    pub is_read: bool,
    /// What was answered, where an answer was asked for and given.
    pub response: Option<bool>,
}

/// The model of a notification.
#[verifier::ext_equal]
pub struct NotificationView {
    /// Identifies the notification.
    pub id: u64,
    /// What the notification says.
    pub notification: Seq<char>,
    /// When it came.
    pub timestamp: i128,
    /// Whether it was read.
    pub is_read: bool,
    /// What was answered.
    pub response: Option<bool>,
}

impl View for NotificationEntry {
    type V = NotificationView;

    open spec fn view(&self) -> NotificationView {
        NotificationView {
            id: self.id,
            notification: self.notification@,
            timestamp: self.timestamp,
            is_read: self.is_read,
            response: self.response,
        }
    }
}

impl Clone for NotificationEntry {
    fn clone(&self) -> (copy: NotificationEntry)
        ensures
            copy@ == self@,
    {
        NotificationEntry {
            id: self.id,
            notification: self.notification.clone(),
            timestamp: self.timestamp,
            is_read: self.is_read,
            response: self.response,
        }
    }
}

/// What happened to the notifications.
#[derive(Debug, Clone, PartialEq, Eq)]
pub enum NotificationEvent {
    /// A range of places now holds a number of others.
    NotificationsUpdated {
        /// The first place of the range.
        start: usize,
        /// The place behind the range.
        end: usize,
        /// How many notifications are there now.
        new_count: usize,
    },
    /// A notification came that is newer than all others.
    NewNotification {
        /// The notification.
        entry: NotificationEntry,
    },
    /// A notification was taken out.
    NotificationRemoved {
        /// The notification.
        entry: NotificationEntry,
    },
    /// A notification was read.
    NotificationRead {
        /// The notification.
        entry: NotificationEntry,
    },
}

/// The model of an event.
#[verifier::ext_equal]
pub enum EventView {
    /// A range of places now holds a number of others.
    Updated {
        /// The first place of the range.
        start: int,
        /// The place behind the range.
        end: int,
        /// How many notifications are there now.
        new_count: int,
    },
    /// A notification came.
    New(NotificationView),
    /// A notification was taken out.
    Removed(NotificationView),
    /// A notification was read.
    Read(NotificationView),
}

impl View for NotificationEvent {
    type V = EventView;

    open spec fn view(&self) -> EventView {
        match self {
            NotificationEvent::NotificationsUpdated { start, end, new_count } => EventView::Updated {
                start: *start as int,
                end: *end as int,
                new_count: *new_count as int,
            },
            NotificationEvent::NewNotification { entry } => EventView::New(entry@),
            NotificationEvent::NotificationRemoved { entry } => EventView::Removed(entry@),
            NotificationEvent::NotificationRead { entry } => EventView::Read(entry@),
        }
    }
}

/// What is known of a row of notifications.
#[derive(Debug, Clone, Copy, PartialEq, Eq, Structural)]
pub struct NotificationSummary {
    /// The largest identifier, or zero.
    pub max_id: u64,
    /// How many there are.
    pub count: usize,
    /// How many of them were not read.
    pub unread_count: usize,
}

/// How many of some notifications were not read.
pub open spec fn unread(entries: Seq<NotificationView>) -> nat
    decreases entries.len(),
{
    if entries.len() == 0 {
        0
    } else {
        unread(entries.drop_last()) + (if entries.last().is_read {
            0nat
        } else {
            1
        })
    }
}

/// The largest identifier of some notifications, or zero.
pub open spec fn largest_id(entries: Seq<NotificationView>) -> u64
    decreases entries.len(),
{
    if entries.len() == 0 {
        0
    } else if entries.last().id > largest_id(entries.drop_last()) {
        entries.last().id
    } else {
        largest_id(entries.drop_last())
    }
}

impl NotificationSummary {
    /// The summary of no notifications.
    pub fn zero() -> (summary: NotificationSummary)
        ensures
            summary == (NotificationSummary { max_id: 0, count: 0, unread_count: 0 }),
    {
        NotificationSummary { max_id: 0, count: 0, unread_count: 0 }
    }

    /// Adds the summary of the notifications behind.
    pub fn add_summary(&mut self, summary: &NotificationSummary)
        requires
            old(self).count + summary.count <= usize::MAX,
            old(self).unread_count + summary.unread_count <= usize::MAX,
        ensures
            final(self).max_id == (if summary.max_id > old(self).max_id {
                summary.max_id
            } else {
                old(self).max_id
            }),
            final(self).count == old(self).count + summary.count,
            final(self).unread_count == old(self).unread_count + summary.unread_count,
    {
        if summary.max_id > self.max_id {
            self.max_id = summary.max_id;
        }
        self.count = self.count + summary.count;
        self.unread_count = self.unread_count + summary.unread_count;
    }
}

impl NotificationEntry {
    /// The summary of one notification.
    pub fn summary(&self) -> (summary: NotificationSummary)
        ensures
            summary.max_id == self.id,
            summary.count == 1,
            summary.unread_count == (if self.is_read {
                0int
            } else {
                1
            }),
    {
        NotificationSummary {
            max_id: self.id,
            count: 1,
            unread_count: if self.is_read {
                0
            } else {
                1
            },
        }
    }
}

/// The identifiers of some notifications ascend.
pub open spec fn ascending(entries: Seq<NotificationView>) -> bool {
    forall|i: int, j: int| 0 <= i < j < entries.len() ==> entries[i].id < entries[j].id
}

/// How many of some ascending notifications have identifiers below one.
pub open spec fn below(entries: Seq<NotificationView>, id: int) -> int
    decreases entries.len(),
{
    if entries.len() == 0 {
        0
    } else if entries.last().id < id {
        entries.len() as int
    } else {
        below(entries.drop_last(), id)
    }
}

/// The notification with an identifier.
pub open spec fn entry_for(entries: Seq<NotificationView>, id: u64) -> Option<NotificationView> {
    let at = below(entries, id as int);
    if at < entries.len() && entries[at].id == id {
        Some(entries[at])
    } else {
        None
    }
}

/// A change: the identifier and the notification that it has from now on, or none.
pub open spec fn change_view(change: (u64, Option<NotificationEntry>)) -> (
    u64,
    Option<NotificationView>,
) {
    (
        change.0,
        match change.1 {
            Some(entry) => Some(entry@),
            None => None,
        },
    )
}

/// The changes come in the order of their identifiers, and each notification has the
/// identifier of its change.
pub open spec fn changes_wf(changes: Seq<(u64, Option<NotificationView>)>) -> bool {
    &&& forall|i: int, j: int| 0 <= i < j < changes.len() ==> changes[i].0 < changes[j].0
    &&& forall|i: int|
        0 <= i < changes.len() ==> ((#[trigger] changes[i]).1 matches Some(entry) ==> entry.id
            == changes[i].0)
}

/// What a change gives an identifier: the notification of its last change, or what it had.
pub open spec fn changed(
    entries: Seq<NotificationView>,
    changes: Seq<(u64, Option<NotificationView>)>,
    id: u64,
) -> Option<NotificationView>
    decreases changes.len(),
{
    if changes.len() == 0 {
        entry_for(entries, id)
    } else if changes.last().0 == id {
        changes.last().1
    } else {
        changed(entries, changes.drop_last(), id)
    }
}

/// What is told of one change: that a known notification was read or taken out, or that one
/// came which is newer than all known ones.
pub open spec fn told(
    entries: Seq<NotificationView>,
    change: (u64, Option<NotificationView>),
    is_new: bool,
) -> Seq<EventView> {
    match (entry_for(entries, change.0), change.1) {
        (Some(_), Some(entry)) => if entry.is_read {
            seq![EventView::Read(entry)]
        } else {
            Seq::empty()
        },
        (Some(former), None) => seq![EventView::Removed(former)],
        (None, Some(entry)) => if below(entries, change.0 as int) == entries.len() && is_new {
            seq![EventView::New(entry)]
        } else {
            Seq::empty()
        },
        (None, None) => Seq::empty(),
    }
}

/// What is told of all changes.
pub open spec fn all_told(
    entries: Seq<NotificationView>,
    changes: Seq<(u64, Option<NotificationView>)>,
    is_new: bool,
) -> Seq<EventView>
    decreases changes.len(),
{
    if changes.len() == 0 {
        Seq::empty()
    } else {
        all_told(entries, changes.drop_last(), is_new) + told(entries, changes.last(), is_new)
    }
}

/// What is told last: which places changed, and how many notifications are there now.
pub open spec fn update_told(
    before: Seq<NotificationView>,
    after: Seq<NotificationView>,
    changes: Seq<(u64, Option<NotificationView>)>,
) -> EventView {
    if changes.len() == 0 {
        EventView::Updated { start: 0, end: 0, new_count: 0 }
    } else {
        let start = below(before, changes[0].0 as int);
        EventView::Updated {
            start,
            end: below(before, changes.last().0 + 1),
            new_count: below(after, changes.last().0 + 1) - start,
        }
    }
}

proof fn lemma_below(entries: Seq<NotificationView>, id: int)
    requires
        ascending(entries),
    ensures
        0 <= below(entries, id) <= entries.len(),
        forall|i: int| 0 <= i < below(entries, id) ==> (#[trigger] entries[i]).id < id,
        forall|i: int| below(entries, id) <= i < entries.len() ==> (#[trigger] entries[i]).id >= id,
    decreases entries.len(),
{
    if entries.len() > 0 && entries.last().id >= id {
        let shorter = entries.drop_last();
        assert(ascending(shorter));
        lemma_below(shorter, id);
        assert forall|i: int| 0 <= i < below(entries, id) implies (#[trigger] entries[i]).id < id by {
            assert(shorter[i] == entries[i]);
        }
        assert forall|i: int| below(entries, id) <= i < entries.len() implies (
        #[trigger] entries[i]).id >= id by {
            if i < shorter.len() {
                assert(shorter[i] == entries[i]);
            }
        }
    }
}

/// The number of notifications below an identifier is where a split by it falls.
proof fn lemma_below_is(entries: Seq<NotificationView>, id: int, at: int)
    requires
        ascending(entries),
        0 <= at <= entries.len(),
        forall|i: int| 0 <= i < at ==> (#[trigger] entries[i]).id < id,
        forall|i: int| at <= i < entries.len() ==> (#[trigger] entries[i]).id >= id,
    ensures
        below(entries, id) == at,
{
    lemma_below(entries, id);
    let found = below(entries, id);
    if found < at {
        assert(entries[found].id < id);
    }
    if at < found {
        assert(entries[at].id < id);
    }
}

proof fn lemma_entry_for(entries: Seq<NotificationView>, id: u64)
    requires
        ascending(entries),
    ensures
        match entry_for(entries, id) {
            Some(entry) => entry.id == id && exists|i: int|
                0 <= i < entries.len() && #[trigger] entries[i] == entry,
            None => forall|i: int| 0 <= i < entries.len() ==> (#[trigger] entries[i]).id != id,
        },
{
    lemma_below(entries, id as int);
    let at = below(entries, id as int);
    if at < entries.len() && entries[at].id == id {
        assert(entries[at] == entry_for(entries, id)->0);
    } else {
        assert forall|i: int| 0 <= i < entries.len() implies (#[trigger] entries[i]).id != id by {
            if i > at {
                assert(entries[at].id < entries[i].id);
            }
        }
    }
}

proof fn lemma_entry_at(entries: Seq<NotificationView>, i: int)
    requires
        ascending(entries),
        0 <= i < entries.len(),
    ensures
        entry_for(entries, entries[i].id) == Some(entries[i]),
{
    lemma_below_is(entries, entries[i].id as int, i);
}

/// Identifiers above all changes keep what they have.
proof fn lemma_unchanged(
    entries: Seq<NotificationView>,
    changes: Seq<(u64, Option<NotificationView>)>,
    id: u64,
)
    requires
        forall|i: int| 0 <= i < changes.len() ==> (#[trigger] changes[i]).0 != id,
    ensures
        changed(entries, changes, id) == entry_for(entries, id),
    decreases changes.len(),
{
    if changes.len() > 0 {
        assert(changes[changes.len() - 1].0 != id);
        let shorter = changes.drop_last();
        assert forall|i: int| 0 <= i < shorter.len() implies (#[trigger] shorter[i]).0 != id by {
            assert(shorter[i] == changes[i]);
        }
        lemma_unchanged(entries, shorter, id);
    }
}

/// Two ascending rows of notifications that give every identifier the same are the same.
pub proof fn law_notifications_are_determined(
    one: Seq<NotificationView>,
    two: Seq<NotificationView>,
)
    requires
        ascending(one),
        ascending(two),
        forall|id: u64| #[trigger] entry_for(one, id) == entry_for(two, id),
    ensures
        one == two,
    decreases one.len(),
{
    if one.len() > 0 || two.len() > 0 {
        if one.len() > 0 {
            lemma_entry_at(one, one.len() - 1);
            lemma_entry_for(two, one.last().id);
        }
        if two.len() > 0 {
            lemma_entry_at(two, two.len() - 1);
            lemma_entry_for(one, two.last().id);
        }
        assert(one.len() > 0 && two.len() > 0);
        if one.last().id < two.last().id {
            let i = choose|i: int| 0 <= i < one.len() && #[trigger] one[i] == two.last();
            if i < one.len() - 1 {
                assert(one[i].id < one[one.len() - 1].id);
            }
        }
        if two.last().id < one.last().id {
            let i = choose|i: int| 0 <= i < two.len() && #[trigger] two[i] == one.last();
            if i < two.len() - 1 {
                assert(two[i].id < two[two.len() - 1].id);
            }
        }
        assert(one.last() == two.last());
        let first = one.drop_last();
        let second = two.drop_last();
        assert(ascending(first));
        assert(ascending(second));
        assert forall|id: u64| #[trigger] entry_for(first, id) == entry_for(second, id) by {
            lemma_shorter(one, id);
            lemma_shorter(two, id);
            assert(entry_for(one, id) == entry_for(two, id));
        }
        law_notifications_are_determined(first, second);
        assert(one =~= first.push(one.last()));
        assert(two =~= second.push(two.last()));
    }
}

proof fn lemma_shorter(entries: Seq<NotificationView>, id: u64)
    requires
        ascending(entries),
        entries.len() > 0,
    ensures
        entry_for(entries.drop_last(), id) == (if id == entries.last().id {
            None
        } else {
            entry_for(entries, id)
        }),
{
    let shorter = entries.drop_last();
    assert(ascending(shorter));
    lemma_entry_for(shorter, id);
    lemma_entry_for(entries, id);
    match entry_for(shorter, id) {
        Some(entry) => {
            let i = choose|i: int| 0 <= i < shorter.len() && #[trigger] shorter[i] == entry;
            assert(entries[i] == entry);
            lemma_entry_at(entries, i);
            assert(entries[i].id < entries[entries.len() - 1].id);
        },
        None => {
            match entry_for(entries, id) {
                Some(entry) => {
                    let i = choose|i: int| 0 <= i < entries.len() && #[trigger] entries[i] == entry;
                    if i < shorter.len() {
                        assert(shorter[i].id == id);
                    }
                },
                None => {},
            }
        },
    }
}

/// What two rows of notifications hold together.
proof fn lemma_concat(a: Seq<NotificationView>, b: Seq<NotificationView>, id: u64)
    requires
        ascending(a + b),
    ensures
        ascending(a),
        ascending(b),
        entry_for(a + b, id) == (match entry_for(a, id) {
            Some(entry) => Some(entry),
            None => entry_for(b, id),
        }),
{
    let whole = a + b;
    assert forall|i: int, j: int| 0 <= i < j < a.len() implies a[i].id < a[j].id by {
        assert(whole[i].id < whole[j].id);
    }
    assert forall|i: int, j: int| 0 <= i < j < b.len() implies b[i].id < b[j].id by {
        assert(whole[a.len() + i].id < whole[a.len() + j].id);
    }
    lemma_entry_for(a, id);
    lemma_entry_for(b, id);
    lemma_entry_for(whole, id);
    if entry_for(a, id) is Some {
        let i = choose|i: int| 0 <= i < a.len() && #[trigger] a[i] == entry_for(a, id)->0;
        assert(whole[i] == a[i]);
        lemma_entry_at(whole, i);
    } else if entry_for(b, id) is Some {
        let i = choose|i: int| 0 <= i < b.len() && #[trigger] b[i] == entry_for(b, id)->0;
        assert(whole[a.len() + i] == b[i]);
        lemma_entry_at(whole, a.len() + i);
    } else if entry_for(whole, id) is Some {
        let i = choose|i: int| 0 <= i < whole.len() && #[trigger] whole[i] == entry_for(
            whole,
            id,
        )->0;
        if i < a.len() {
            assert(a[i].id == id);
        } else {
            assert(b[i - a.len()].id == id);
        }
    }
}

/// What a part of a row of notifications holds.
proof fn lemma_part(entries: Seq<NotificationView>, from: int, to: int, id: u64)
    requires
        ascending(entries),
        0 <= from <= to <= entries.len(),
    ensures
        ascending(entries.subrange(from, to)),
        entry_for(entries.subrange(from, to), id) == (if from <= below(entries, id as int) < to {
            entry_for(entries, id)
        } else {
            None
        }),
{
    let part = entries.subrange(from, to);
    assert forall|i: int, j: int| 0 <= i < j < part.len() implies part[i].id < part[j].id by {
        assert(entries[from + i].id < entries[from + j].id);
    }
    lemma_below(entries, id as int);
    lemma_entry_for(part, id);
    let at = below(entries, id as int);
    if from <= at < to {
        if entries[at].id == id {
            assert(part[at - from] == entries[at]);
            lemma_entry_at(part, at - from);
        } else {
            assert forall|i: int| 0 <= i < part.len() implies (#[trigger] part[i]).id != id by {
                assert(part[i] == entries[from + i]);
                if from + i > at {
                    assert(entries[at].id < entries[from + i].id);
                }
            }
        }
    } else {
        assert forall|i: int| 0 <= i < part.len() implies (#[trigger] part[i]).id != id by {
            assert(part[i] == entries[from + i]);
            if from + i > at {
                assert(entries[at].id < entries[from + i].id);
            }
        }
    }
}

/// The numbers of notifications below two identifiers.
proof fn lemma_below_grows(entries: Seq<NotificationView>, low: int, high: int)
    requires
        ascending(entries),
        low <= high,
    ensures
        below(entries, low) <= below(entries, high),
{
    lemma_below(entries, low);
    lemma_below(entries, high);
    if below(entries, low) > below(entries, high) {
        assert(entries[below(entries, high)].id < low);
    }
}

/// The place behind an identifier is the place of the identifier, or the one after it.
proof fn lemma_behind(entries: Seq<NotificationView>, id: u64)
    requires
        ascending(entries),
    ensures
        below(entries, id + 1) == below(entries, id as int) + (if entry_for(entries, id) is Some {
            1int
        } else {
            0
        }),
{
    lemma_below(entries, id as int);
    let at = below(entries, id as int);
    if entry_for(entries, id) is Some {
        assert forall|i: int| at + 1 <= i < entries.len() implies (#[trigger] entries[i]).id >= id
            + 1 by {
            assert(entries[at].id < entries[i].id);
        }
        lemma_below_is(entries, id + 1, at + 1);
    } else {
        assert forall|i: int| at <= i < entries.len() implies (#[trigger] entries[i]).id >= id
            + 1 by {
            if i > at {
                assert(entries[at].id < entries[i].id);
            }
        }
        lemma_below_is(entries, id + 1, at);
    }
}

/// The state of a splice: what stands in front of the next change.
pub open spec fn splice_state(
    entries: Seq<NotificationView>,
    changes: Seq<(u64, Option<NotificationView>)>,
    placed: Seq<NotificationView>,
    taken: int,
) -> bool {
    &&& ascending(placed)
    &&& changes.len() == 0 ==> placed.len() == 0 && taken == 0
    &&& changes.len() > 0 ==> {
        &&& taken == below(entries, changes.last().0 + 1)
        &&& placed.len() >= below(entries, changes[0].0 as int)
        &&& forall|i: int| 0 <= i < placed.len() ==> (#[trigger] placed[i]).id <= changes.last().0
        &&& forall|id: u64|
            id <= changes.last().0 ==> #[trigger] entry_for(placed, id) == changed(
                entries,
                changes,
                id,
            )
    }
}

/// One change carries a splice on: the untouched notifications in front of it follow, and then
/// the one that it brings.
proof fn lemma_splice_step(
    entries: Seq<NotificationView>,
    changes: Seq<(u64, Option<NotificationView>)>,
    placed: Seq<NotificationView>,
    taken: int,
    next: Seq<NotificationView>,
)
    requires
        ascending(entries),
        changes.len() > 0,
        changes_wf(changes),
        splice_state(entries, changes.drop_last(), placed, taken),
        ({
            let id = changes.last().0;
            next == placed + entries.subrange(taken, below(entries, id as int)) + (
            match changes.last().1 {
                Some(entry) => seq![entry],
                None => Seq::empty(),
            })
        }),
    ensures
        0 <= taken <= below(entries, changes.last().0 as int) <= entries.len(),
        splice_state(entries, changes, next, below(entries, changes.last().0 + 1)),
{
    let id = changes.last().0;
    let earlier = changes.drop_last();
    let at = below(entries, id as int);
    lemma_below(entries, id as int);
    if earlier.len() > 0 {
        assert(earlier.last().0 < id) by {
            assert(changes[changes.len() - 2].0 < changes[changes.len() - 1].0);
        }
        lemma_below(entries, earlier.last().0 + 1);
        lemma_below_grows(entries, earlier.last().0 + 1, id as int);
    }
    let middle = entries.subrange(taken, at);
    let brought = match changes.last().1 {
        Some(entry) => seq![entry],
        None => Seq::<NotificationView>::empty(),
    };
    assert(changes[changes.len() - 1] == changes.last());
    assert forall|i: int| 0 <= i < middle.len() implies (#[trigger] middle[i]).id < id && (
    earlier.len() > 0 ==> middle[i].id > earlier.last().0) by {
        assert(middle[i] == entries[taken + i]);
    }
    let front = placed + middle;
    assert forall|i: int, j: int| 0 <= i < j < next.len() implies next[i].id < next[j].id by {
        if j < placed.len() {
            assert(placed[i].id < placed[j].id);
        } else if j < front.len() {
            assert(next[j] == middle[j - placed.len()]);
            if i < placed.len() {
                assert(next[i] == placed[i]);
            } else {
                assert(next[i] == middle[i - placed.len()]);
                assert(entries[taken + i - placed.len()].id < entries[taken + j - placed.len()].id);
            }
        } else {
            if i < placed.len() {
                assert(next[i] == placed[i]);
            } else {
                assert(next[i] == middle[i - placed.len()]);
            }
        }
    }
    assert forall|i: int| 0 <= i < next.len() implies (#[trigger] next[i]).id <= id by {
        if i < placed.len() {
            assert(next[i] == placed[i]);
        } else if i < front.len() {
            assert(next[i] == middle[i - placed.len()]);
        }
    }
    assert forall|other: u64| other <= id implies #[trigger] entry_for(next, other) == changed(
        entries,
        changes,
        other,
    ) by {
        lemma_concat(front, brought, other);
        lemma_concat(placed, middle, other);
        lemma_part(entries, taken, at, other);
        lemma_below(entries, other as int);
        lemma_entry_for(brought, other);
        lemma_entry_for(placed, other);
        lemma_entry_for(middle, other);
        if other == id {
            if entry_for(placed, other) is Some {
                let i = choose|i: int| 0 <= i < placed.len() && #[trigger] placed[i] == entry_for(
                    placed,
                    other,
                )->0;
                assert(placed[i].id <= earlier.last().0);
            }
            match changes.last().1 {
                Some(entry) => {
                    assert(brought[0] == entry);
                    lemma_entry_at(brought, 0);
                },
                None => {},
            }
        } else {
            match changes.last().1 {
                Some(entry) => {
                    assert(brought[0] == entry);
                    if entry_for(brought, other) is Some {
                        let i = choose|i: int| 0 <= i < brought.len() && #[trigger] brought[i]
                            == entry_for(brought, other)->0;
                        assert(brought[i] == entry);
                    }
                },
                None => {},
            }
            if earlier.len() > 0 && other <= earlier.last().0 {
                lemma_below_grows(entries, other as int, earlier.last().0 + 1);
                if entry_for(entries, other) is Some && below(entries, other as int) == taken {
                    lemma_below(entries, earlier.last().0 + 1);
                    assert(entries[taken].id >= earlier.last().0 + 1);
                }
            } else {
                assert forall|i: int| 0 <= i < earlier.len() implies (#[trigger] earlier[i]).0
                    != other by {
                    if i < earlier.len() - 1 {
                        assert(changes[i].0 < changes[earlier.len() - 1].0);
                    }
                    assert(earlier[i] == changes[i]);
                }
                lemma_unchanged(entries, earlier, other);
                if entry_for(placed, other) is Some {
                    let i = choose|i: int| 0 <= i < placed.len() && #[trigger] placed[i]
                        == entry_for(placed, other)->0;
                    assert(placed[i].id <= earlier.last().0);
                }
                if entry_for(entries, other) is Some {
                    let place = below(entries, other as int);
                    assert(entries[place].id == other);
                    if place < taken {
                        assert(entries[place].id < earlier.last().0 + 1);
                    }
                    if place >= at {
                        assert(entries[place].id >= id);
                    }
                }
            }
        }
    }
    if earlier.len() > 0 {
        assert(earlier[0] == changes[0]);
    }
}

/// The notifications behind the last change close a splice.
proof fn lemma_splice_end(
    entries: Seq<NotificationView>,
    changes: Seq<(u64, Option<NotificationView>)>,
    placed: Seq<NotificationView>,
    taken: int,
    after: Seq<NotificationView>,
)
    requires
        ascending(entries),
        changes_wf(changes),
        splice_state(entries, changes, placed, taken),
        after == placed + entries.skip(taken),
    ensures
        ascending(after),
        forall|id: u64| #[trigger] entry_for(after, id) == changed(entries, changes, id),
        changes.len() > 0 ==> below(after, changes.last().0 + 1) == placed.len(),
        0 <= taken <= entries.len(),
{
    if changes.len() == 0 {
        assert(after =~= entries);
    } else {
        let id = changes.last().0;
        lemma_below(entries, id + 1);
        let rest = entries.skip(taken);
        assert(rest =~= entries.subrange(taken, entries.len() as int));
        assert forall|i: int| 0 <= i < rest.len() implies (#[trigger] rest[i]).id > id by {
            assert(rest[i] == entries[taken + i]);
        }
        assert forall|i: int, j: int| 0 <= i < j < after.len() implies after[i].id < after[j].id by {
            if j < placed.len() {
                assert(placed[i].id < placed[j].id);
            } else {
                assert(after[j] == rest[j - placed.len()]);
                if i < placed.len() {
                    assert(after[i] == placed[i]);
                } else {
                    assert(after[i] == rest[i - placed.len()]);
                    assert(entries[taken + i - placed.len()].id < entries[taken + j
                        - placed.len()].id);
                }
            }
        }
        assert forall|i: int| 0 <= i < placed.len() implies (#[trigger] after[i]).id < id + 1 by {
            assert(after[i] == placed[i]);
        }
        assert forall|i: int| placed.len() <= i < after.len() implies (#[trigger] after[i]).id >= id
            + 1 by {
            assert(after[i] == rest[i - placed.len()]);
        }
        lemma_below_is(after, id + 1, placed.len() as int);
        assert forall|other: u64| #[trigger] entry_for(after, other) == changed(
            entries,
            changes,
            other,
        ) by {
            lemma_concat(placed, rest, other);
            lemma_part(entries, taken, entries.len() as int, other);
            lemma_entry_for(placed, other);
            lemma_entry_for(rest, other);
            if other <= id {
                if entry_for(rest, other) is Some {
                    let i = choose|i: int| 0 <= i < rest.len() && #[trigger] rest[i] == entry_for(
                        rest,
                        other,
                    )->0;
                    assert(rest[i].id > id);
                }
            } else {
                assert forall|i: int| 0 <= i < changes.len() implies (#[trigger] changes[i]).0
                    != other by {
                    if i < changes.len() - 1 {
                        assert(changes[i].0 < changes[changes.len() - 1].0);
                    }
                }
                lemma_unchanged(entries, changes, other);
                if entry_for(placed, other) is Some {
                    let i = choose|i: int| 0 <= i < placed.len() && #[trigger] placed[i]
                        == entry_for(placed, other)->0;
                    assert(placed[i].id <= id);
                }
                lemma_below_grows(entries, id + 1, other as int);
                lemma_below(entries, other as int);
            }
        }
    }
}

/// The notifications.
#[derive(Debug)]
pub struct NotificationStore {
    /// The notifications, oldest first.
    pub notifications: Vec<NotificationEntry>,
    /// Whether all older ones were loaded.
    pub loaded_all_notifications: bool,
}

impl View for NotificationStore {
    type V = Seq<NotificationView>;

    open spec fn view(&self) -> Seq<NotificationView> {
        self.notifications@.map_values(|entry: NotificationEntry| entry@)
    }
}

impl NotificationStore {
    /// The identifiers ascend.
    pub open spec fn wf(&self) -> bool {
        ascending(self@)
    }

    /// A store without notifications.
    pub fn new() -> (store: NotificationStore)
        ensures
            store.wf(),
            store@ == Seq::<NotificationView>::empty(),
            !store.loaded_all_notifications,
    {
        let store = NotificationStore {
            notifications: Vec::new(),
            loaded_all_notifications: false,
        };
        assert(store@ =~= Seq::<NotificationView>::empty());
        store
    }

    /// What is known of the notifications.
    pub fn summary(&self) -> (summary: NotificationSummary)
        ensures
            summary.max_id == largest_id(self@),
            summary.count == self@.len(),
            summary.unread_count == unread(self@),
    {
        let mut summary = NotificationSummary::zero();
        let mut i: usize = 0;
        while i < self.notifications.len()
            invariant
                i <= self.notifications@.len(),
                summary.max_id == largest_id(self@.take(i as int)),
                summary.count == i,
                summary.unread_count <= i,
                summary.unread_count == unread(self@.take(i as int)),
            decreases self.notifications@.len() - i,
        {
            assert(self@.take(i + 1).drop_last() =~= self@.take(i as int));
            assert(self@.take(i + 1).last() == self.notifications@[i as int]@);
            assert(i < self.notifications.len());
            summary.add_summary(&self.notifications[i].summary());
            i += 1;
        }
        assert(self@.take(self@.len() as int) =~= self@);
        summary
    }

    /// How many notifications there are.
    pub fn notification_count(&self) -> (count: usize)
        ensures
            count == self@.len(),
    {
        self.summary().count
    }

    /// How many notifications were not read.
    pub fn unread_notification_count(&self) -> (count: usize)
        ensures
            count == unread(self@),
    {
        self.summary().unread_count
    }

    /// The nth newest notification, counted from zero.
    pub fn notification_at(&self, ix: usize) -> (entry: Option<&NotificationEntry>)
        ensures
            match entry {
                Some(entry) => ix < self@.len() && entry@ == self@[self@.len() - 1 - ix],
                None => ix >= self@.len(),
            },
    {
        let count = self.notification_count();
        if ix >= count {
            return None;
        }
        Some(&self.notifications[count - 1 - ix])
    }

    /// How many notifications have identifiers below one.
    fn count_below(&self, id: u64) -> (at: usize)
        requires
            self.wf(),
        ensures
            at == below(self@, id as int),
            at <= self@.len(),
    {
        let mut at: usize = 0;
        while at < self.notifications.len() && self.notifications[at].id < id
            invariant
                at <= self.notifications@.len(),
                forall|i: int| 0 <= i < at ==> (#[trigger] self@[i]).id < id,
            decreases self.notifications@.len() - at,
        {
            assert(self@[at as int] == self.notifications@[at as int]@);
            at += 1;
        }
        proof {
            assert forall|i: int| at <= i < self@.len() implies (#[trigger] self@[i]).id >= id by {
                assert(self@[at as int] == self.notifications@[at as int]@);
                if i > at {
                    assert(self@[at as int].id < self@[i].id);
                }
            }
            lemma_below_is(self@, id as int, at as int);
        }
        at
    }

    /// The notification with an identifier.
    pub fn notification_for_id(&self, id: u64) -> (entry: Option<&NotificationEntry>)
        requires
            self.wf(),
        ensures
            match entry {
                Some(entry) => entry_for(self@, id) == Some(entry@),
                None => entry_for(self@, id) is None,
            },
    {
        let at = self.count_below(id);
        if at < self.notifications.len() && self.notifications[at].id == id {
            Some(&self.notifications[at])
        } else {
            None
        }
    }

    /// Takes over changes of notifications, and says what happened: which notifications came,
    /// were read or were taken out, and last which places changed.
    pub fn splice_notifications(
        &mut self,
        changes: Vec<(u64, Option<NotificationEntry>)>,
        is_new: bool,
    ) -> (events: Vec<NotificationEvent>)
        requires
            old(self).wf(),
            changes_wf(
                changes@.map_values(
                    |change: (u64, Option<NotificationEntry>)| change_view(change),
                ),
            ),
        ensures
            final(self).wf(),
            final(self).loaded_all_notifications == old(self).loaded_all_notifications,
            ({
                let views = changes@.map_values(
                    |change: (u64, Option<NotificationEntry>)| change_view(change),
                );
                &&& forall|id: u64| #[trigger]
                    entry_for(final(self)@, id) == changed(old(self)@, views, id)
                &&& events@.map_values(|event: NotificationEvent| event@) == all_told(
                    old(self)@,
                    views,
                    is_new,
                ).push(update_told(old(self)@, final(self)@, views))
            }),
    {
        let ghost views = changes@.map_values(
            |change: (u64, Option<NotificationEntry>)| change_view(change),
        );
        let ghost entries = self@;
        let mut placed: Vec<NotificationEntry> = Vec::new();
        let mut events: Vec<NotificationEvent> = Vec::new();
        let mut taken: usize = 0;
        let mut start: usize = 0;
        let mut i: usize = 0;
        assert(placed@.map_values(|entry: NotificationEntry| entry@)
            =~= Seq::<NotificationView>::empty());
        assert(events@.map_values(|event: NotificationEvent| event@) =~= Seq::<EventView>::empty());
        while i < changes.len()
            invariant
                self.wf(),
                self@ == entries,
                self.loaded_all_notifications == old(self).loaded_all_notifications,
                i <= changes@.len(),
                views == changes@.map_values(
                    |change: (u64, Option<NotificationEntry>)| change_view(change),
                ),
                changes_wf(views),
                splice_state(
                    entries,
                    views.take(i as int),
                    placed@.map_values(|entry: NotificationEntry| entry@),
                    taken as int,
                ),
                events@.map_values(|event: NotificationEvent| event@) == all_told(
                    entries,
                    views.take(i as int),
                    is_new,
                ),
                start == (if i > 0 {
                    below(entries, views[0].0 as int)
                } else {
                    0
                }),
            decreases changes@.len() - i,
        {
            let ghost earlier = views.take(i as int);
            let ghost reached = views.take(i + 1);
            let ghost before = placed@.map_values(|entry: NotificationEntry| entry@);
            let ghost told_before = events@.map_values(|event: NotificationEvent| event@);
            let ghost was_taken = taken as int;
            let id = changes[i].0;
            proof {
                assert(reached.drop_last() =~= earlier);
                assert(reached.last() == views[i as int]);
                assert(reached[0] == views[0]);
                lemma_changes_part(views, i + 1);
                if i > 0 {
                    assert(earlier.last() == views[i - 1]);
                    assert(views[i - 1].0 < views[i as int].0);
                    lemma_below_grows(entries, earlier.last().0 + 1, id as int);
                    lemma_below(entries, earlier.last().0 + 1);
                }
                lemma_below(entries, id as int);
            }
            let at = self.count_below(id);
            while taken < at
                invariant
                    self.wf(),
                    self@ == entries,
                    0 <= was_taken <= taken <= at <= entries.len(),
                    placed@.map_values(|entry: NotificationEntry| entry@) == before
                        + entries.subrange(was_taken, taken as int),
                decreases at - taken,
            {
                let ghost so_far = placed@;
                placed.push(self.notifications[taken].clone());
                taken += 1;
                proof {
                    assert(entries.subrange(was_taken, taken as int) =~= entries.subrange(
                        was_taken,
                        taken - 1,
                    ).push(entries[taken - 1]));
                    assert(placed@.map_values(|entry: NotificationEntry| entry@)
                        =~= so_far.map_values(|entry: NotificationEntry| entry@).push(
                        entries[taken - 1],
                    ));
                    assert(placed@.map_values(|entry: NotificationEntry| entry@) =~= before
                        + entries.subrange(was_taken, taken as int));
                }
            }
            if i == 0 {
                start = at;
            }
            let known = taken < self.notifications.len() && self.notifications[taken].id == id;
            assert(known == (entry_for(entries, id) is Some));
            assert(views[i as int] == change_view(changes@[i as int]));
            match &changes[i].1 {
                Some(entry) => {
                    if known {
                        if entry.is_read {
                            events.push(NotificationEvent::NotificationRead { entry: entry.clone() });
                        }
                    } else if taken >= self.notifications.len() && is_new {
                        events.push(NotificationEvent::NewNotification { entry: entry.clone() });
                    }
                    placed.push(entry.clone());
                    assert(placed@.map_values(|entry: NotificationEntry| entry@) =~= before
                        + entries.subrange(was_taken, at as int) + seq![entry@]);
                },
                None => {
                    if known {
                        events.push(
                            NotificationEvent::NotificationRemoved {
                                entry: self.notifications[taken].clone(),
                            },
                        );
                    }
                    assert(placed@.map_values(|entry: NotificationEntry| entry@) =~= before
                        + entries.subrange(was_taken, at as int)
                        + Seq::<NotificationView>::empty());
                },
            }
            proof {
                assert(events@.map_values(|event: NotificationEvent| event@) =~= told_before + told(
                    entries,
                    views[i as int],
                    is_new,
                ));
                lemma_splice_step(
                    entries,
                    reached,
                    before,
                    was_taken,
                    placed@.map_values(|entry: NotificationEntry| entry@),
                );
                lemma_behind(entries, id);
            }
            if known {
                taken += 1;
            }
            i += 1;
        }
        assert(views.take(views.len() as int) =~= views);
        let ghost front = placed@.map_values(|entry: NotificationEntry| entry@);
        let ghost was_taken = taken as int;
        let placed_count = placed.len();
        let end = taken;
        proof {
            lemma_splice_end(entries, views, front, was_taken, front + entries.skip(was_taken));
        }
        assert(front + entries.subrange(was_taken, was_taken) =~= front);
        while taken < self.notifications.len()
            invariant
                self.wf(),
                self@ == entries,
                self.loaded_all_notifications == old(self).loaded_all_notifications,
                0 <= was_taken <= taken <= entries.len(),
                placed@.map_values(|entry: NotificationEntry| entry@) == front + entries.subrange(
                    was_taken,
                    taken as int,
                ),
            decreases entries.len() - taken,
        {
            let ghost so_far = placed@;
            placed.push(self.notifications[taken].clone());
            taken += 1;
            proof {
                assert(entries.subrange(was_taken, taken as int) =~= entries.subrange(
                    was_taken,
                    taken - 1,
                ).push(entries[taken - 1]));
                assert(placed@.map_values(|entry: NotificationEntry| entry@) =~= so_far.map_values(
                    |entry: NotificationEntry| entry@,
                ).push(entries[taken - 1]));
                assert(placed@.map_values(|entry: NotificationEntry| entry@) =~= front
                    + entries.subrange(was_taken, taken as int));
            }
        }
        assert(entries.subrange(was_taken, entries.len() as int) =~= entries.skip(was_taken));
        self.notifications = placed;
        let ghost told_before = events@.map_values(|event: NotificationEvent| event@);
        let new_count: usize = placed_count - start;
        events.push(NotificationEvent::NotificationsUpdated { start, end, new_count });
        proof {
            assert(self@ =~= front + entries.skip(was_taken));
            assert(events@.map_values(|event: NotificationEvent| event@) =~= told_before.push(
                update_told(entries, self@, views),
            ));
        }
        events
    }
}

/// The first changes of a row of changes are a row of changes.
proof fn lemma_changes_part(changes: Seq<(u64, Option<NotificationView>)>, count: int)
    requires
        changes_wf(changes),
        0 <= count <= changes.len(),
    ensures
        changes_wf(changes.take(count)),
{
    let part = changes.take(count);
    assert forall|i: int| 0 <= i < part.len() implies ((#[trigger] part[i]).1 matches Some(entry)
        ==> entry.id == part[i].0) by {
        assert(part[i] == changes[i]);
    }
}

/// A splice without changes changes nothing.
pub proof fn law_empty_splice_changes_nothing(entries: Seq<NotificationView>, id: u64)
    ensures
        changed(entries, Seq::empty(), id) == entry_for(entries, id),
        update_told(entries, entries, Seq::empty()) == (EventView::Updated {
            start: 0,
            end: 0,
            new_count: 0,
        }),
{
}

/// Each notification that was not read counts as one.
pub proof fn law_unread_are_counted(entries: Seq<NotificationView>, entry: NotificationView)
    ensures
        unread(Seq::<NotificationView>::empty()) == 0,
        entry.is_read ==> unread(entries.push(entry)) == unread(entries),
        !entry.is_read ==> unread(entries.push(entry)) == unread(entries) + 1,
{
    assert(entries.push(entry).drop_last() =~= entries);
}

/// The largest identifier is that of a notification, and none is larger.
pub proof fn law_largest_id_is_the_largest(entries: Seq<NotificationView>, at: int)
    requires
        0 <= at < entries.len(),
    ensures
        entries[at].id <= largest_id(entries),
        exists|i: int| 0 <= i < entries.len() && (#[trigger] entries[i]).id == largest_id(entries),
        largest_id(Seq::<NotificationView>::empty()) == 0,
    decreases entries.len(),
{
    let shorter = entries.drop_last();
    if at < shorter.len() {
        law_largest_id_is_the_largest(shorter, at);
        assert(shorter[at] == entries[at]);
        let i = choose|i: int|
            0 <= i < shorter.len() && (#[trigger] shorter[i]).id == largest_id(shorter);
        assert(entries[i] == shorter[i]);
    } else if shorter.len() > 0 {
        law_largest_id_is_the_largest(shorter, 0);
        let i = choose|i: int|
            0 <= i < shorter.len() && (#[trigger] shorter[i]).id == largest_id(shorter);
        assert(entries[i] == shorter[i]);
    }
    assert(entries[entries.len() - 1] == entries.last());
}

/// A notification is found under its identifier, and nothing is found under one that none has.
pub proof fn law_notification_is_found_by_its_id(
    entries: Seq<NotificationView>,
    id: u64,
    at: int,
)
    requires
        ascending(entries),
        0 <= at < entries.len(),
    ensures
        entry_for(entries, entries[at].id) == Some(entries[at]),
        (forall|i: int| 0 <= i < entries.len() ==> (#[trigger] entries[i]).id != id) ==> entry_for(
            entries,
            id,
        ) is None,
{
    lemma_entry_at(entries, at);
    lemma_entry_for(entries, id);
}

/// A change decides what there is under its identifier, and leaves every other identifier alone.
pub proof fn law_change_concerns_its_identifier(
    entries: Seq<NotificationView>,
    changes: Seq<(u64, Option<NotificationView>)>,
    change: (u64, Option<NotificationView>),
    id: u64,
)
    ensures
        changed(entries, changes.push(change), change.0) == change.1,
        id != change.0 ==> changed(entries, changes.push(change), id) == changed(
            entries,
            changes,
            id,
        ),
{
    assert(changes.push(change).drop_last() =~= changes);
}

/// Of a change of a notification that was there it is told just where the notification is read now,
/// and of one that left that it left.
pub proof fn law_known_notifications_are_told_of(
    entries: Seq<NotificationView>,
    at: int,
    entry: NotificationView,
    is_new: bool,
)
    requires
        ascending(entries),
        0 <= at < entries.len(),
    ensures
        entry.is_read ==> told(entries, (entries[at].id, Some(entry)), is_new) == seq![
            EventView::Read(entry),
        ],
        !entry.is_read ==> told(entries, (entries[at].id, Some(entry)), is_new).len() == 0,
        told(entries, (entries[at].id, None), is_new) == seq![EventView::Removed(entries[at])],
{
    lemma_entry_at(entries, at);
}

/// A notification that was not there is told of as new just where it comes behind all others and
/// was announced as new; of one that was not there and still is not, nothing is told.
pub proof fn law_unknown_notifications_are_told_of(
    entries: Seq<NotificationView>,
    id: u64,
    entry: NotificationView,
    is_new: bool,
)
    requires
        ascending(entries),
        forall|i: int| 0 <= i < entries.len() ==> (#[trigger] entries[i]).id != id,
    ensures
        told(entries, (id, None), is_new).len() == 0,
        is_new && (forall|i: int| 0 <= i < entries.len() ==> (#[trigger] entries[i]).id < id)
            ==> told(entries, (id, Some(entry)), is_new) == seq![EventView::New(entry)],
        !is_new || (exists|i: int| 0 <= i < entries.len() && (#[trigger] entries[i]).id > id)
            ==> told(entries, (id, Some(entry)), is_new).len() == 0,
{
    lemma_entry_for(entries, id);
    lemma_below(entries, id as int);
    if forall|i: int| 0 <= i < entries.len() ==> (#[trigger] entries[i]).id < id {
        lemma_below_is(entries, id as int, entries.len() as int);
    }
}

/// What is told comes in the order of the changes.
pub proof fn law_told_in_the_order_of_the_changes(
    entries: Seq<NotificationView>,
    changes: Seq<(u64, Option<NotificationView>)>,
    change: (u64, Option<NotificationView>),
    is_new: bool,
)
    ensures
        all_told(entries, Seq::empty(), is_new).len() == 0,
        all_told(entries, changes.push(change), is_new) == all_told(entries, changes, is_new)
            + told(entries, change, is_new),
{
    assert(changes.push(change).drop_last() =~= changes);
}

/// The places that changed go from the first changed notification to the last one, both before and
/// after the change.
pub proof fn law_changed_places_are_told(
    before: Seq<NotificationView>,
    after: Seq<NotificationView>,
    changes: Seq<(u64, Option<NotificationView>)>,
    at: int,
)
    requires
        ascending(before),
        ascending(after),
        changes.len() > 0,
    ensures
        update_told(before, after, changes) matches EventView::Updated { start, end, new_count } && {
            &&& 0 <= at < before.len() ==> (start <= at <==> before[at].id >= changes[0].0)
            &&& 0 <= at < before.len() ==> (at < end <==> before[at].id <= changes.last().0)
            &&& 0 <= at < after.len() ==> (at < start + new_count <==> after[at].id
                <= changes.last().0)
            &&& 0 <= start <= before.len()
            &&& 0 <= end <= before.len()
            &&& 0 <= start + new_count <= after.len()
        },
{
    lemma_below(before, changes[0].0 as int);
    lemma_below(before, changes.last().0 + 1);
    lemma_below(after, changes.last().0 + 1);
}

} // verus!
