//! Completed media and actions of a pane: stamped with one shared sequence in arrival order,
//! and queued until the hook that takes them is installed.
use crate::marker_walk::ScanEvent;
use std::collections::VecDeque;
use vstd::prelude::*;

verus! {

/// A completed image.
#[derive(Debug)]
pub struct PaneMedia {
    pub pane_id: String,
    pub sequence: u64,
    pub image_id: u32,
    pub row: i32,
    pub column: u32,
    pub payload: Vec<u8>,
}

/// A completed action.
#[derive(Debug)]
pub struct PaneAction {
    pub pane_id: String,
    pub sequence: u64,
    pub payload: Vec<u8>,
}

/// What a [`PaneMedia`] holds.
#[verifier::ext_equal]
pub struct MediaView {
    pub pane_id: Seq<char>,
    pub sequence: u64,
    pub image_id: u32,
    pub row: i32,
    pub column: u32,
    pub payload: Seq<u8>,
}

/// What a [`PaneAction`] holds.
#[verifier::ext_equal]
pub struct ActionView {
    pub pane_id: Seq<char>,
    pub sequence: u64,
    pub payload: Seq<u8>,
}

impl View for PaneMedia {
    type V = MediaView;

    open spec fn view(&self) -> MediaView {
        MediaView {
            pane_id: self.pane_id@,
            sequence: self.sequence,
            image_id: self.image_id,
            row: self.row,
            column: self.column,
            payload: self.payload@,
        }
    }
}

impl View for PaneAction {
    type V = ActionView;

    open spec fn view(&self) -> ActionView {
        ActionView { pane_id: self.pane_id@, sequence: self.sequence, payload: self.payload@ }
    }
}

/// A media or action event on its way to its hook.
#[derive(Debug)]
pub enum PendingTypedEvent {
    Media(PaneMedia),
    Action(PaneAction),
}

/// What a [`PendingTypedEvent`] holds.
#[verifier::ext_equal]
pub enum TypedEventView {
    Media(MediaView),
    Action(ActionView),
}

impl View for PendingTypedEvent {
    type V = TypedEventView;

    open spec fn view(&self) -> TypedEventView {
        match *self {
            PendingTypedEvent::Media(media) => TypedEventView::Media(media@),
            PendingTypedEvent::Action(action) => TypedEventView::Action(action@),
        }
    }
}

impl TypedEventView {
    /// The event's number in the pane's shared sequence.
    pub open spec fn sequence(self) -> u64 {
        match self {
            TypedEventView::Media(media) => media.sequence,
            TypedEventView::Action(action) => action.sequence,
        }
    }
}

/// What a list of events holds.
pub open spec fn typed_views(events: Seq<PendingTypedEvent>) -> Seq<TypedEventView> {
    events.map_values(|e: PendingTypedEvent| e@)
}

/// What a list of media holds.
pub open spec fn media_views(media: Seq<PaneMedia>) -> Seq<MediaView> {
    media.map_values(|m: PaneMedia| m@)
}

/// What a list of actions holds.
pub open spec fn action_views(actions: Seq<PaneAction>) -> Seq<ActionView> {
    actions.map_values(|a: PaneAction| a@)
}

/// Media after the cursor cells of some of them were taken over: the image at a place gets the
/// row and the column of the last cell for it, and a cell for no image is passed over.
pub open spec fn placed(media: Seq<MediaView>, cells: Seq<(usize, i32, u32)>) -> Seq<MediaView>
    decreases cells.len(),
{
    if cells.len() == 0 {
        media
    } else {
        let before = placed(media, cells.drop_last());
        let (index, row, column) = cells.last();
        if index < before.len() {
            before.update(index as int, MediaView { row, column, ..before[index as int] })
        } else {
            before
        }
    }
}

/// Takes over the cursor cells that were read at the images' own places in the stream.
pub fn place_media(media: &mut Vec<PaneMedia>, cells: &Vec<(usize, i32, u32)>)
    ensures
        media_views(final(media)@) == placed(media_views(old(media)@), cells@),
{
    let mut i: usize = 0;
    assert(cells@.take(0) =~= Seq::<(usize, i32, u32)>::empty());
    while i < cells.len()
        invariant
            i <= cells@.len(),
            media_views(media@) == placed(media_views(old(media)@), cells@.take(i as int)),
        decreases cells@.len() - i,
    {
        let (index, row, column) = cells[i];
        assert(cells@.take(i + 1).drop_last() =~= cells@.take(i as int));
        let ghost before = media_views(media@);
        if index < media.len() {
            media[index].row = row;
            media[index].column = column;
            assert(media_views(media@) =~= before.update(
                index as int,
                MediaView { row, column, ..before[index as int] },
            ));
        }
        i += 1;
    }
    assert(cells@.take(i as int) =~= cells@);
}

/// The number that the next event is stamped with.
pub open spec fn next_stamp(counter: u64) -> u64 {
    if counter < u64::MAX {
        (counter + 1) as u64
    } else {
        u64::MAX
    }
}

/// The counter after an event was stamped.
pub open spec fn next_counter(counter: u64) -> u64 {
    if counter < u64::MAX {
        (counter + 1) as u64
    } else {
        0
    }
}

/// The event that a scan event completes, stamped, if its slot is filled.
pub open spec fn completed(
    event: ScanEvent,
    pane_id: Seq<char>,
    counter: u64,
    media: Seq<MediaView>,
    actions: Seq<ActionView>,
) -> Option<TypedEventView> {
    match event {
        ScanEvent::Media { index, .. } => if index < media.len() {
            Some(
                TypedEventView::Media(
                    MediaView { pane_id, sequence: next_stamp(counter), ..media[index as int] },
                ),
            )
        } else {
            None
        },
        ScanEvent::Action { index, .. } => if index < actions.len() {
            Some(
                TypedEventView::Action(
                    ActionView { pane_id, sequence: next_stamp(counter), ..actions[index as int] },
                ),
            )
        } else {
            None
        },
        ScanEvent::Placement { .. } => None,
    }
}

/// The counter after a batch of scan events.
pub open spec fn counter_after(
    events: Seq<ScanEvent>,
    pane_id: Seq<char>,
    counter: u64,
    media: Seq<MediaView>,
    actions: Seq<ActionView>,
) -> u64
    decreases events.len(),
{
    if events.len() == 0 {
        counter
    } else {
        let before = counter_after(events.drop_last(), pane_id, counter, media, actions);
        if completed(events.last(), pane_id, before, media, actions) is Some {
            next_counter(before)
        } else {
            before
        }
    }
}

/// The events that a batch of scan events completes, stamped in arrival order.
pub open spec fn stamped(
    events: Seq<ScanEvent>,
    pane_id: Seq<char>,
    counter: u64,
    media: Seq<MediaView>,
    actions: Seq<ActionView>,
) -> Seq<TypedEventView>
    decreases events.len(),
{
    if events.len() == 0 {
        Seq::empty()
    } else {
        let before = counter_after(events.drop_last(), pane_id, counter, media, actions);
        let head = stamped(events.drop_last(), pane_id, counter, media, actions);
        match completed(events.last(), pane_id, before, media, actions) {
            Some(event) => head.push(event),
            None => head,
        }
    }
}

/// Bytes again.
fn clone_bytes(bytes: &Vec<u8>) -> (copy: Vec<u8>)
    ensures
        copy@ == bytes@,
{
    let mut copy: Vec<u8> = Vec::new();
    let mut i: usize = 0;
    while i < bytes.len()
        invariant
            i <= bytes@.len(),
            copy@ == bytes@.take(i as int),
        decreases bytes@.len() - i,
    {
        copy.push(bytes[i]);
        assert(bytes@.take(i + 1) =~= bytes@.take(i as int).push(bytes@[i as int]));
        i += 1;
    }
    assert(bytes@.take(i as int) =~= bytes@);
    copy
}

/// Stamp one event: the number it gets, and the counter moves on.
fn stamp(counter: &mut u64) -> (sequence: u64)
    ensures
        sequence == next_stamp(*old(counter)),
        *final(counter) == next_counter(*old(counter)),
{
    let sequence = counter.saturating_add(1);
    *counter = counter.wrapping_add(1);
    sequence
}

/// The completed media and actions of a batch in cross-type arrival order, each stamped with
/// the one sequence that both types share.
pub fn stamp_events(
    pane_id: &String,
    media_sequence: &mut u64,
    scan_events: &Vec<ScanEvent>,
    media: &Vec<PaneMedia>,
    actions: &Vec<PaneAction>,
) -> (events: Vec<PendingTypedEvent>)
    ensures
        typed_views(events@) == stamped(
            scan_events@,
            pane_id@,
            *old(media_sequence),
            media_views(media@),
            action_views(actions@),
        ),
        *final(media_sequence) == counter_after(
            scan_events@,
            pane_id@,
            *old(media_sequence),
            media_views(media@),
            action_views(actions@),
        ),
{
    let mut events: Vec<PendingTypedEvent> = Vec::new();
    let ghost start = *media_sequence;
    let ghost all_media = media_views(media@);
    let ghost all_actions = action_views(actions@);
    let mut i: usize = 0;
    assert(scan_events@.take(0) =~= Seq::<ScanEvent>::empty());
    assert(typed_views(events@) =~= Seq::<TypedEventView>::empty());
    while i < scan_events.len()
        invariant
            i <= scan_events@.len(),
            all_media == media_views(media@),
            all_actions == action_views(actions@),
            *media_sequence == counter_after(
                scan_events@.take(i as int),
                pane_id@,
                start,
                all_media,
                all_actions,
            ),
            typed_views(events@) == stamped(
                scan_events@.take(i as int),
                pane_id@,
                start,
                all_media,
                all_actions,
            ),
        decreases scan_events@.len() - i,
    {
        let ghost before = events@;
        let ghost counter = *media_sequence;
        assert(scan_events@.take(i + 1).drop_last() =~= scan_events@.take(i as int));
        assert(scan_events@.take(i + 1).last() == scan_events@[i as int]);
        match scan_events[i] {
            ScanEvent::Media { index, .. } => {
                if index < media.len() {
                    let item = &media[index];
                    let stamped_item = PaneMedia {
                        pane_id: pane_id.clone(),
                        sequence: stamp(media_sequence),
                        image_id: item.image_id,
                        row: item.row,
                        column: item.column,
                        payload: clone_bytes(&item.payload),
                    };
                    assert(all_media[index as int] == item@);
                    events.push(PendingTypedEvent::Media(stamped_item));
                    assert(typed_views(events@) =~= typed_views(before).push(
                        completed(
                            scan_events@[i as int],
                            pane_id@,
                            counter,
                            all_media,
                            all_actions,
                        )->0,
                    ));
                }
            },
            ScanEvent::Action { index, .. } => {
                if index < actions.len() {
                    let item = &actions[index];
                    let stamped_item = PaneAction {
                        pane_id: pane_id.clone(),
                        sequence: stamp(media_sequence),
                        payload: clone_bytes(&item.payload),
                    };
                    assert(all_actions[index as int] == item@);
                    events.push(PendingTypedEvent::Action(stamped_item));
                    assert(typed_views(events@) =~= typed_views(before).push(
                        completed(
                            scan_events@[i as int],
                            pane_id@,
                            counter,
                            all_media,
                            all_actions,
                        )->0,
                    ));
                }
            },
            ScanEvent::Placement { .. } => {},
        }
        i += 1;
    }
    assert(scan_events@.take(i as int) =~= scan_events@);
    events
}

/// Media and actions share one sequence without gaps: the events of a batch carry consecutive
/// numbers in arrival order, and the next batch goes on where this one ended.
pub proof fn law_stamps_are_consecutive(
    events: Seq<ScanEvent>,
    pane_id: Seq<char>,
    counter: u64,
    media: Seq<MediaView>,
    actions: Seq<ActionView>,
)
    requires
        counter + events.len() <= u64::MAX,
    ensures
        ({
            let out = stamped(events, pane_id, counter, media, actions);
            &&& out.len() <= events.len()
            &&& counter_after(events, pane_id, counter, media, actions) == counter + out.len()
            &&& forall|i: int|
                0 <= i < out.len() ==> (#[trigger] out[i]).sequence() == counter + i + 1
        }),
    decreases events.len(),
{
    if events.len() > 0 {
        law_stamps_are_consecutive(events.drop_last(), pane_id, counter, media, actions);
    }
}

/// The queue of typed events.
pub struct PendingTypedEvents {
    pub queue: VecDeque<PendingTypedEvent>,
    /// A drain is under way; it alone hands events out.
    pub draining: bool,
    /// A drain was asked for while one was under way.
    pub retry_requested: bool,
}

/// What the drain does next.
#[derive(Debug)]
pub enum DrainStep {
    /// Hand this event to its hook, then take the next step.
    Deliver(PendingTypedEvent),
    /// The hook of the first event is missing, but another drain was asked for meanwhile:
    /// begin again.
    Retry,
    /// Nothing more can be handed out now.
    Done,
}

/// What a [`PendingTypedEvents`] holds.
#[verifier::ext_equal]
pub struct QueueModel {
    pub queue: Seq<PendingTypedEvent>,
    pub draining: bool,
    pub retry_requested: bool,
}

impl View for PendingTypedEvents {
    type V = QueueModel;

    open spec fn view(&self) -> QueueModel {
        QueueModel {
            queue: self.queue@,
            draining: self.draining,
            retry_requested: self.retry_requested,
        }
    }
}

/// Whether the hook for an event is installed.
pub open spec fn hook_present(
    event: PendingTypedEvent,
    media_hook: bool,
    action_hook: bool,
) -> bool {
    match event {
        PendingTypedEvent::Media(_) => media_hook,
        PendingTypedEvent::Action(_) => action_hook,
    }
}

/// The events that are kept: all of them for a pane with a session, else those whose hook is
/// installed.
pub open spec fn retained(
    events: Seq<PendingTypedEvent>,
    has_session: bool,
    media_hook: bool,
    action_hook: bool,
) -> Seq<PendingTypedEvent> {
    events.filter(
        |e: PendingTypedEvent| has_session || hook_present(e, media_hook, action_hook),
    )
}

impl QueueModel {
    /// One step of a drain.
    pub open spec fn stepped(self, media_hook: bool, action_hook: bool) -> (QueueModel, DrainStep) {
        if self.queue.len() == 0 {
            (QueueModel { draining: false, retry_requested: false, ..self }, DrainStep::Done)
        } else if hook_present(self.queue[0], media_hook, action_hook) {
            (
                QueueModel { queue: self.queue.skip(1), ..self },
                DrainStep::Deliver(self.queue[0]),
            )
        } else {
            (
                QueueModel { draining: false, retry_requested: false, ..self },
                if self.retry_requested {
                    DrainStep::Retry
                } else {
                    DrainStep::Done
                },
            )
        }
    }

    /// The queue after `n` steps.
    pub open spec fn after_steps(self, media_hook: bool, action_hook: bool, n: nat) -> QueueModel
        decreases n,
    {
        if n == 0 {
            self
        } else {
            self.after_steps(media_hook, action_hook, (n - 1) as nat).stepped(
                media_hook,
                action_hook,
            ).0
        }
    }
}

impl PendingTypedEvents {
    /// An idle, empty queue.
    pub fn new() -> (pending: Self)
        ensures
            pending@ == (QueueModel {
                queue: Seq::empty(),
                draining: false,
                retry_requested: false,
            }),
    {
        let pending = PendingTypedEvents {
            queue: VecDeque::new(),
            draining: false,
            retry_requested: false,
        };
        assert(pending@ =~= (QueueModel {
            queue: Seq::empty(),
            draining: false,
            retry_requested: false,
        }));
        pending
    }

    /// Queue events behind those already there, dropping those that nobody will ever take.
    pub fn enqueue(
        &mut self,
        events: Vec<PendingTypedEvent>,
        has_session: bool,
        media_hook: bool,
        action_hook: bool,
    )
        ensures
            final(self)@ == (QueueModel {
                queue: old(self)@.queue + retained(
                    events@,
                    has_session,
                    media_hook,
                    action_hook,
                ),
                ..old(self)@
            }),
    {
        let mut rest = events;
        let mut kept: VecDeque<PendingTypedEvent> = VecDeque::new();
        let ghost keep = |e: PendingTypedEvent|
            has_session || hook_present(e, media_hook, action_hook);
        let ghost all = events@;
        assert(all.skip(all.len() as int) =~= Seq::<PendingTypedEvent>::empty());
        assert(rest@ =~= all.take(all.len() as int));
        proof {
            reveal(Seq::filter);
        }
        assert(all.skip(all.len() as int).filter(keep) =~= Seq::<PendingTypedEvent>::empty());
        while rest.len() > 0
            invariant
                rest@.len() <= all.len(),
                rest@ == all.take(rest@.len() as int),
                keep == (|e: PendingTypedEvent|
                    has_session || hook_present(e, media_hook, action_hook)),
                kept@ == all.skip(rest@.len() as int).filter(keep),
            decreases rest@.len(),
        {
            let ghost n = rest@.len() as int;
            match rest.pop() {
                Some(event) => {
                    assert(event == all[n - 1]);
                    assert(rest@ =~= all.take(n - 1));
                    let retain = has_session || match &event {
                        PendingTypedEvent::Media(_) => media_hook,
                        PendingTypedEvent::Action(_) => action_hook,
                    };
                    proof {
                        assert(all.skip(n - 1) =~= seq![event] + all.skip(n));
                        Seq::filter_distributes_over_add(seq![event], all.skip(n), keep);
                        reveal(Seq::filter);
                        assert(seq![event].drop_last() =~= Seq::<PendingTypedEvent>::empty());
                        assert(Seq::<PendingTypedEvent>::empty().filter(keep) =~= Seq::<
                            PendingTypedEvent,
                        >::empty());
                        assert(seq![event].filter(keep) =~= if keep(event) {
                            seq![event]
                        } else {
                            seq![]
                        });
                    }
                    if retain {
                        kept.push_front(event);
                    }
                    assert(kept@ =~= all.skip(n - 1).filter(keep));
                },
                None => {},
            }
        }
        assert(all.skip(0) =~= all);
        self.queue.append(&mut kept);
        assert(self@ =~= (QueueModel {
            queue: old(self)@.queue + retained(all, has_session, media_hook, action_hook),
            ..old(self)@
        }));
    }

    /// Begin a drain, unless one is under way: that one is asked to look again instead.
    pub fn begin_drain(&mut self) -> (begun: bool)
        ensures
            begun == !old(self)@.draining,
            final(self)@ == (if old(self)@.draining {
                QueueModel { retry_requested: true, ..old(self)@ }
            } else {
                QueueModel { draining: true, ..old(self)@ }
            }),
    {
        if self.draining {
            self.retry_requested = true;
            false
        } else {
            self.draining = true;
            true
        }
    }

    /// One step of a drain, given which hooks are installed now. No lock is held while a hook
    /// runs, so the answer may change from step to step.
    pub fn drain_step(&mut self, media_hook: bool, action_hook: bool) -> (step: DrainStep)
        ensures
            (final(self)@, step) == old(self)@.stepped(media_hook, action_hook),
    {
        let present = if self.queue.len() == 0 {
            self.draining = false;
            self.retry_requested = false;
            return DrainStep::Done;
        } else {
            match &self.queue[0] {
                PendingTypedEvent::Media(_) => media_hook,
                PendingTypedEvent::Action(_) => action_hook,
            }
        };
        if present {
            match self.queue.pop_front() {
                Some(event) => {
                    assert(self@ =~= (QueueModel { queue: old(self)@.queue.skip(1), ..old(self)@ }));
                    DrainStep::Deliver(event)
                },
                None => DrainStep::Done,
            }
        } else {
            let retry = self.retry_requested;
            self.retry_requested = false;
            self.draining = false;
            if retry {
                DrainStep::Retry
            } else {
                DrainStep::Done
            }
        }
    }
}

/// A drain hands events out first come, first served and loses none: as long as the hooks of
/// the first `n` events are installed, `n` steps hand out exactly those, and the rest waits
/// in order.
pub proof fn law_drain_is_first_come_first_served(
    start: QueueModel,
    media_hook: bool,
    action_hook: bool,
    n: nat,
)
    requires
        n <= start.queue.len(),
        forall|i: int|
            0 <= i < n ==> hook_present(#[trigger] start.queue[i], media_hook, action_hook),
    ensures
        start.after_steps(media_hook, action_hook, n) == (QueueModel {
            queue: start.queue.skip(n as int),
            ..start
        }),
        n < start.queue.len() && hook_present(start.queue[n as int], media_hook, action_hook)
            ==> start.after_steps(media_hook, action_hook, n).stepped(media_hook, action_hook).1
            == DrainStep::Deliver(start.queue[n as int]),
    decreases n,
{
    if n == 0 {
        assert(start.queue.skip(0) =~= start.queue);
        assert(start.after_steps(media_hook, action_hook, 0) =~= (QueueModel {
            queue: start.queue.skip(0),
            ..start
        }));
    } else {
        law_drain_is_first_come_first_served(start, media_hook, action_hook, (n - 1) as nat);
        assert(hook_present(start.queue[n - 1], media_hook, action_hook));
        assert(start.queue.skip(n - 1).skip(1) =~= start.queue.skip(n as int));
    }
}

/// An event whose hook is missing stays at the head, with everything behind it, until its hook
/// is installed; the drain ends, or begins again if that was asked for.
pub proof fn law_event_waits_for_its_hook(start: QueueModel, media_hook: bool, action_hook: bool)
    requires
        start.queue.len() > 0,
        !hook_present(start.queue[0], media_hook, action_hook),
    ensures
        start.stepped(media_hook, action_hook).0.queue == start.queue,
        !start.stepped(media_hook, action_hook).0.draining,
        start.stepped(media_hook, action_hook).1 == (if start.retry_requested {
            DrainStep::Retry
        } else {
            DrainStep::Done
        }),
{
}

/// A completed image or action is handed on in its place, as the pane's own and otherwise as it was
/// completed; an announced placement, and a slot that holds nothing, hand on nothing.
pub proof fn law_events_are_handed_on_as_completed(
    events: Seq<ScanEvent>,
    event: ScanEvent,
    pane_id: Seq<char>,
    counter: u64,
    media: Seq<MediaView>,
    actions: Seq<ActionView>,
)
    requires
        counter + events.len() < u64::MAX,
    ensures
        ({
            let before = stamped(events, pane_id, counter, media, actions);
            let after = stamped(events.push(event), pane_id, counter, media, actions);
            match event {
                ScanEvent::Media { index, .. } if index < media.len() => {
                    &&& after.len() == before.len() + 1
                    &&& after.drop_last() == before
                    &&& after.last() matches TypedEventView::Media(last) && last.pane_id == pane_id
                        && last.sequence == counter + before.len() + 1 && last.image_id
                        == media[index as int].image_id && last.row == media[index as int].row
                        && last.column == media[index as int].column && last.payload
                        == media[index as int].payload
                },
                ScanEvent::Action { index, .. } if index < actions.len() => {
                    &&& after.len() == before.len() + 1
                    &&& after.drop_last() == before
                    &&& after.last() matches TypedEventView::Action(last) && last.pane_id == pane_id
                        && last.sequence == counter + before.len() + 1 && last.payload
                        == actions[index as int].payload
                },
                _ => after == before,
            }
        }),
{
    assert(events.push(event).drop_last() =~= events);
    law_stamps_are_consecutive(events, pane_id, counter, media, actions);
    let before = stamped(events, pane_id, counter, media, actions);
    let after = stamped(events.push(event), pane_id, counter, media, actions);
    if after.len() > before.len() {
        assert(after.drop_last() =~= before);
    }
}

/// An image waits for the hook of images and an action for the hook of actions: the head of the
/// queue is delivered exactly if its own hook is installed.
pub proof fn law_each_type_has_its_hook(start: QueueModel, media_hook: bool, action_hook: bool)
    requires
        start.queue.len() > 0,
    ensures
        start.stepped(media_hook, action_hook).1 is Deliver <==> match start.queue[0] {
            PendingTypedEvent::Media(_) => media_hook,
            PendingTypedEvent::Action(_) => action_hook,
        },
        start.stepped(media_hook, action_hook).1 matches DrainStep::Deliver(event) ==> event
            == start.queue[0] && start.stepped(media_hook, action_hook).0.queue
            == start.queue.skip(1),
{
}

/// A drain of an empty queue ends, and forgets that it was asked to look again.
pub proof fn law_drain_of_nothing_ends(start: QueueModel, media_hook: bool, action_hook: bool)
    requires
        start.queue.len() == 0,
    ensures
        start.stepped(media_hook, action_hook).1 is Done,
        !start.stepped(media_hook, action_hook).0.draining,
        !start.stepped(media_hook, action_hook).0.retry_requested,
{
}

/// In a session every event is kept, in order; without one only those whose hook is installed.
pub proof fn law_events_are_kept_for_a_session(
    events: Seq<PendingTypedEvent>,
    event: PendingTypedEvent,
    has_session: bool,
    media_hook: bool,
    action_hook: bool,
)
    ensures
        retained(events.push(event), has_session, media_hook, action_hook) == (if has_session
            || match event {
            PendingTypedEvent::Media(_) => media_hook,
            PendingTypedEvent::Action(_) => action_hook,
        } {
            retained(events, has_session, media_hook, action_hook).push(event)
        } else {
            retained(events, has_session, media_hook, action_hook)
        }),
        retained(Seq::empty(), has_session, media_hook, action_hook).len() == 0,
{
    let kept = |e: PendingTypedEvent| has_session || hook_present(e, media_hook, action_hook);
    reveal(Seq::filter);
    assert(events.push(event).drop_last() =~= events);
}

/// The cell that is read last for an image is where it stands; everything else of it, and every
/// other image, stays as it is. A cell for no image changes nothing.
pub proof fn law_image_stands_at_its_cell(
    media: Seq<MediaView>,
    cells: Seq<(usize, i32, u32)>,
    cell: (usize, i32, u32),
    at: int,
)
    requires
        0 <= at < media.len(),
    ensures
        placed(media, Seq::empty()) == media,
        placed(media, cells).len() == media.len(),
        ({
            let before = placed(media, cells)[at];
            let after = placed(media, cells.push(cell))[at];
            &&& after.row == (if cell.0 == at {
                cell.1
            } else {
                before.row
            })
            &&& after.column == (if cell.0 == at {
                cell.2
            } else {
                before.column
            })
            &&& after.image_id == before.image_id
            &&& after.payload == before.payload
            &&& after.pane_id == before.pane_id
            &&& after.sequence == before.sequence
        }),
    decreases cells.len(),
{
    if cells.len() > 0 {
        law_image_stands_at_its_cell(media, cells.drop_last(), cell, at);
    }
    assert(cells.push(cell).drop_last() =~= cells);
}

/// Each stamp is one larger than the counter before it, and so is the counter behind it; at the
/// largest number the stamp stays there, and the counter starts anew.
pub proof fn law_stamps_count_up(counter: u64)
    ensures
        counter < u64::MAX ==> next_stamp(counter) == counter + 1 && next_counter(counter)
            == counter + 1,
        next_stamp(u64::MAX) == u64::MAX,
        next_counter(u64::MAX) == 0,
{
}

/// A cell for no image changes nothing.
pub proof fn law_cell_for_no_image_is_passed_over(
    media: Seq<MediaView>,
    cells: Seq<(usize, i32, u32)>,
    cell: (usize, i32, u32),
)
    requires
        cell.0 >= placed(media, cells).len(),
    ensures
        placed(media, cells.push(cell)) == placed(media, cells),
{
    assert(cells.push(cell).drop_last() =~= cells);
}

} // verus!
