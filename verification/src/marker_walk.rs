//! The walk through one batch of output that stops at every shell marker and every media
//! event, so that the cursor is read at the byte offset each arrived on.
use crate::osc::{OscEvent, ShellMarkerKind};
use crate::row_addressing::WalkPoint;
use vstd::prelude::*;

verus! {

/// One event of the media scanner, with its offset in the bytes that reach the grid.
#[derive(Clone, Copy, Debug, PartialEq, Eq, Structural)]
pub enum ScanEvent {
    /// An image announced where it will be placed, before its data is complete.
    Placement { image_id: u32, grid_offset: usize, action: Option<u8> },
    /// A completed image: its slot in the batch's media list.
    Media {
        index: usize,
        image_id: u32,
        grid_offset: usize,
        action: Option<u8>,
        placement_from_pending: bool,
    },
    /// A completed action: its slot in the batch's action list.
    Action { index: usize, grid_offset: usize },
}

/// Where the walk stops, and why.
#[derive(Clone, Copy, Debug, PartialEq, Eq, Structural)]
pub enum Boundary {
    Marker { kind: ShellMarkerKind, exit_code: Option<i32> },
    Placement { image_id: u32, action: Option<u8> },
    Media { index: usize, image_id: u32, action: Option<u8>, placement_from_pending: bool },
}

/// The stop that a scanned sequence makes.
pub open spec fn osc_stop(event: OscEvent) -> Seq<(usize, Boundary)> {
    match event {
        OscEvent::ShellMarker { kind, exit_code, end_offset } => seq![
            (end_offset, Boundary::Marker { kind, exit_code }),
        ],
        OscEvent::Cwd(_) => seq![],
    }
}

/// The stop that a media event makes.
pub open spec fn scan_stop(event: ScanEvent) -> Seq<(usize, Boundary)> {
    match event {
        ScanEvent::Placement { image_id, grid_offset, action } => seq![
            (grid_offset, Boundary::Placement { image_id, action }),
        ],
        ScanEvent::Media { index, image_id, grid_offset, action, placement_from_pending } => seq![
            (grid_offset, Boundary::Media { index, image_id, action, placement_from_pending }),
        ],
        ScanEvent::Action { .. } => seq![],
    }
}

/// The stops of scanned sequences, in arrival order.
pub open spec fn osc_stops(events: Seq<OscEvent>) -> Seq<(usize, Boundary)>
    decreases events.len(),
{
    if events.len() == 0 {
        Seq::empty()
    } else {
        osc_stops(events.drop_last()) + osc_stop(events.last())
    }
}

/// The stops of media events, in arrival order.
pub open spec fn scan_stops(events: Seq<ScanEvent>) -> Seq<(usize, Boundary)>
    decreases events.len(),
{
    if events.len() == 0 {
        Seq::empty()
    } else {
        scan_stops(events.drop_last()) + scan_stop(events.last())
    }
}

/// Whether stops are ordered by offset.
pub open spec fn by_offset(stops: Seq<(usize, Boundary)>) -> bool {
    forall|i: int, j: int|
        0 <= i <= j < stops.len() ==> (#[trigger] stops[i]).0 <= (#[trigger] stops[j]).0
}

/// The stops at one offset, in order.
pub open spec fn stops_at(stops: Seq<(usize, Boundary)>, offset: usize) -> Seq<(usize, Boundary)>
    decreases stops.len(),
{
    if stops.len() == 0 {
        Seq::empty()
    } else if stops.last().0 == offset {
        stops_at(stops.drop_last(), offset).push(stops.last())
    } else {
        stops_at(stops.drop_last(), offset)
    }
}

/// Whether `sorted` holds the stops of `stops` ordered by offset, those at one offset in the
/// order in which they stood.
pub open spec fn stably_sorted(
    sorted: Seq<(usize, Boundary)>,
    stops: Seq<(usize, Boundary)>,
) -> bool {
    &&& by_offset(sorted)
    &&& forall|offset: usize| #[trigger] stops_at(sorted, offset) == stops_at(stops, offset)
}

proof fn lemma_stops_at_concat(
    a: Seq<(usize, Boundary)>,
    b: Seq<(usize, Boundary)>,
    offset: usize,
)
    ensures
        stops_at(a + b, offset) == stops_at(a, offset) + stops_at(b, offset),
    decreases b.len(),
{
    if b.len() == 0 {
        assert(a + b =~= a);
        assert(stops_at(a, offset) + Seq::<(usize, Boundary)>::empty() =~= stops_at(a, offset));
    } else {
        lemma_stops_at_concat(a, b.drop_last(), offset);
        assert((a + b).drop_last() =~= a + b.drop_last());
        assert((a + b).last() == b.last());
        assert(stops_at(a + b, offset) =~= stops_at(a, offset) + stops_at(b, offset));
    }
}

proof fn lemma_no_stops_at(stops: Seq<(usize, Boundary)>, offset: usize)
    requires
        forall|i: int| 0 <= i < stops.len() ==> (#[trigger] stops[i]).0 != offset,
    ensures
        stops_at(stops, offset) == Seq::<(usize, Boundary)>::empty(),
    decreases stops.len(),
{
    if stops.len() > 0 {
        assert(stops[stops.len() - 1].0 != offset);
        assert forall|i: int| 0 <= i < stops.drop_last().len() implies (
        #[trigger] stops.drop_last()[i]).0 != offset by {
            assert(stops.drop_last()[i] == stops[i]);
        }
        lemma_no_stops_at(stops.drop_last(), offset);
    }
}

/// A stop that is put behind those at lower offsets and at its own keeps the order.
proof fn lemma_placed(before: Seq<(usize, Boundary)>, at: int, stop: (usize, Boundary))
    requires
        by_offset(before),
        0 <= at <= before.len(),
        at > 0 ==> before[at - 1].0 <= stop.0,
        forall|i: int| at <= i < before.len() ==> (#[trigger] before[i]).0 > stop.0,
    ensures
        by_offset(before.insert(at, stop)),
        forall|offset: usize| #[trigger]
            stops_at(before.insert(at, stop), offset) == stops_at(before.push(stop), offset),
{
    let after = before.insert(at, stop);
    let head = before.take(at);
    let tail = before.skip(at);
    assert(before =~= head + tail);
    assert(after =~= head.push(stop) + tail);
    assert forall|i: int, j: int| 0 <= i <= j < after.len() implies (#[trigger] after[i]).0
        <= (#[trigger] after[j]).0 by {
        let oi = if i < at {
            i
        } else {
            i - 1
        };
        let oj = if j < at {
            j
        } else {
            j - 1
        };
        if i != at && j != at {
            assert(before[oi].0 <= before[oj].0);
        } else if i == at && j > at {
            assert(before[oj].0 > stop.0);
        } else if j == at && i < at {
            assert(before[i].0 <= before[at - 1].0);
        }
    }
    assert forall|offset: usize| #[trigger]
        stops_at(after, offset) == stops_at(before.push(stop), offset) by {
        lemma_stops_at_concat(head.push(stop), tail, offset);
        lemma_stops_at_concat(head, tail, offset);
        assert(head.push(stop).drop_last() =~= head);
        assert(before.push(stop).drop_last() =~= before);
        if stop.0 == offset {
            assert forall|i: int| 0 <= i < tail.len() implies (#[trigger] tail[i]).0
                != offset by {
                assert(tail[i] == before[at + i]);
            }
            lemma_no_stops_at(tail, offset);
            assert(stops_at(after, offset) =~= stops_at(before.push(stop), offset));
        }
    }
}

/// Where a stop belongs among sorted ones.
proof fn lemma_place_exists(before: Seq<(usize, Boundary)>, stop: (usize, Boundary), from: int) -> (at:
    int)
    requires
        by_offset(before),
        0 <= from <= before.len(),
        forall|i: int| from <= i < before.len() ==> (#[trigger] before[i]).0 > stop.0,
    ensures
        0 <= at <= before.len(),
        at > 0 ==> before[at - 1].0 <= stop.0,
        forall|i: int| at <= i < before.len() ==> (#[trigger] before[i]).0 > stop.0,
    decreases from,
{
    if from == 0 || before[from - 1].0 <= stop.0 {
        from
    } else {
        lemma_place_exists(before, stop, from - 1)
    }
}

/// Stops can be ordered by offset.
proof fn lemma_order_exists(stops: Seq<(usize, Boundary)>) -> (sorted: Seq<(usize, Boundary)>)
    ensures
        stably_sorted(sorted, stops),
    decreases stops.len(),
{
    if stops.len() == 0 {
        stops
    } else {
        let head = lemma_order_exists(stops.drop_last());
        let at = lemma_place_exists(head, stops.last(), head.len() as int);
        lemma_placed(head, at, stops.last());
        lemma_push_keeps_stable(
            head,
            head.insert(at, stops.last()),
            stops.drop_last(),
            stops.last(),
        );
        assert(stops.drop_last().push(stops.last()) =~= stops);
        head.insert(at, stops.last())
    }
}

/// Put one more stop among sorted ones, behind those at the same offset.
fn place_stop(sorted: &mut Vec<(usize, Boundary)>, stop: (usize, Boundary))
    requires
        by_offset(old(sorted)@),
    ensures
        by_offset(final(sorted)@),
        forall|offset: usize| #[trigger]
            stops_at(final(sorted)@, offset) == stops_at(old(sorted)@.push(stop), offset),
{
    let mut at: usize = sorted.len();
    while at > 0 && sorted[at - 1].0 > stop.0
        invariant
            at <= sorted@.len(),
            *sorted == *old(sorted),
            by_offset(sorted@),
            forall|i: int| at <= i < sorted@.len() ==> (#[trigger] sorted@[i]).0 > stop.0,
        decreases at,
    {
        at -= 1;
    }
    let ghost before = sorted@;
    sorted.insert(at, stop);
    proof {
        lemma_placed(before, at as int, stop);
    }
}

/// Whether any image was completed or deleted. That changes what a pane shows, though the grid
/// stays as it is.
pub fn has_media(events: &Vec<ScanEvent>) -> (found: bool)
    ensures
        found <==> exists|i: int| 0 <= i < events@.len() && (#[trigger] events@[i]) is Media,
{
    let mut i: usize = 0;
    while i < events.len()
        invariant
            i <= events@.len(),
            forall|j: int| 0 <= j < i ==> !((#[trigger] events@[j]) is Media),
        decreases events@.len() - i,
    {
        match &events[i] {
            ScanEvent::Media { .. } => {
                assert(events@[i as int] is Media);
                return true;
            },
            _ => {},
        }
        i += 1;
    }
    false
}

/// Merge shell markers and media events into one walk ordered by offset.
pub fn merge_boundaries(events: &Vec<OscEvent>, media_events: &Vec<ScanEvent>) -> (stops: Vec<
    (usize, Boundary),
>)
    ensures
        stably_sorted(stops@, osc_stops(events@) + scan_stops(media_events@)),
{
    let mut stops: Vec<(usize, Boundary)> = Vec::new();
    let mut i: usize = 0;
    assert(events@.take(0) =~= Seq::<OscEvent>::empty());
    while i < events.len()
        invariant
            i <= events@.len(),
            stably_sorted(stops@, osc_stops(events@.take(i as int))),
        decreases events@.len() - i,
    {
        let ghost done = osc_stops(events@.take(i as int));
        assert(events@.take(i + 1).drop_last() =~= events@.take(i as int));
        assert(events@.take(i + 1).last() == events@[i as int]);
        match &events[i] {
            OscEvent::ShellMarker { kind, exit_code, end_offset } => {
                let stop = (*end_offset, Boundary::Marker { kind: *kind, exit_code: *exit_code });
                let ghost before = stops@;
                place_stop(&mut stops, stop);
                proof {
                    assert(osc_stops(events@.take(i + 1)) =~= done.push(stop));
                    lemma_push_keeps_stable(before, stops@, done, stop);
                }
            },
            OscEvent::Cwd(_) => {
                assert(osc_stops(events@.take(i + 1)) =~= done);
            },
        }
        i += 1;
    }
    assert(events@.take(i as int) =~= events@);
    let ghost first = osc_stops(events@);
    let mut k: usize = 0;
    assert(media_events@.take(0) =~= Seq::<ScanEvent>::empty());
    assert(first + scan_stops(media_events@.take(0)) =~= first);
    while k < media_events.len()
        invariant
            k <= media_events@.len(),
            first == osc_stops(events@),
            stably_sorted(stops@, first + scan_stops(media_events@.take(k as int))),
        decreases media_events@.len() - k,
    {
        let ghost done = first + scan_stops(media_events@.take(k as int));
        assert(media_events@.take(k + 1).drop_last() =~= media_events@.take(k as int));
        let ghost now = first + scan_stops(media_events@.take(k + 1));
        match media_events[k] {
            ScanEvent::Placement { image_id, grid_offset, action } => {
                let stop = (grid_offset, Boundary::Placement { image_id, action });
                let ghost before = stops@;
                place_stop(&mut stops, stop);
                proof {
                    assert(now =~= done.push(stop));
                    lemma_push_keeps_stable(before, stops@, done, stop);
                }
            },
            ScanEvent::Media { index, image_id, grid_offset, action, placement_from_pending } => {
                let stop = (
                    grid_offset,
                    Boundary::Media { index, image_id, action, placement_from_pending },
                );
                let ghost before = stops@;
                place_stop(&mut stops, stop);
                proof {
                    assert(now =~= done.push(stop));
                    lemma_push_keeps_stable(before, stops@, done, stop);
                }
            },
            ScanEvent::Action { .. } => {
                assert(now =~= done);
            },
        }
        k += 1;
    }
    assert(media_events@.take(k as int) =~= media_events@);
    stops
}

proof fn lemma_push_keeps_stable(
    before: Seq<(usize, Boundary)>,
    after: Seq<(usize, Boundary)>,
    done: Seq<(usize, Boundary)>,
    stop: (usize, Boundary),
)
    requires
        stably_sorted(before, done),
        by_offset(after),
        forall|offset: usize| #[trigger]
            stops_at(after, offset) == stops_at(before.push(stop), offset),
    ensures
        stably_sorted(after, done.push(stop)),
{
    assert forall|offset: usize| #[trigger]
        stops_at(after, offset) == stops_at(done.push(stop), offset) by {
        assert(before.push(stop).drop_last() =~= before);
        assert(done.push(stop).drop_last() =~= done);
        assert(stops_at(before, offset) == stops_at(done, offset));
    }
}

/// Two stable orderings of the same stops are the same list.
pub proof fn law_stable_order_is_unique(
    a: Seq<(usize, Boundary)>,
    b: Seq<(usize, Boundary)>,
    stops: Seq<(usize, Boundary)>,
)
    requires
        stably_sorted(a, stops),
        stably_sorted(b, stops),
    ensures
        a == b,
{
    assert forall|offset: usize| #[trigger] stops_at(a, offset) == stops_at(b, offset) by {}
    lemma_same_stops(a, b);
}

proof fn lemma_last_stop(a: Seq<(usize, Boundary)>)
    requires
        by_offset(a),
        a.len() > 0,
    ensures
        stops_at(a, a.last().0).len() > 0,
        stops_at(a, a.last().0).last() == a.last(),
        forall|offset: usize| offset > a.last().0 ==> #[trigger] stops_at(a, offset) == Seq::<
            (usize, Boundary),
        >::empty(),
{
    assert forall|offset: usize| offset > a.last().0 implies #[trigger] stops_at(a, offset) == Seq::<
        (usize, Boundary),
    >::empty() by {
        assert forall|i: int| 0 <= i < a.len() implies (#[trigger] a[i]).0 != offset by {
            assert(a[i].0 <= a[a.len() - 1].0);
        }
        lemma_no_stops_at(a, offset);
    }
}

proof fn lemma_same_stops(a: Seq<(usize, Boundary)>, b: Seq<(usize, Boundary)>)
    requires
        by_offset(a),
        by_offset(b),
        forall|offset: usize| #[trigger] stops_at(a, offset) == stops_at(b, offset),
    ensures
        a == b,
    decreases a.len(),
{
    if a.len() > 0 {
        lemma_last_stop(a);
    }
    if b.len() > 0 {
        lemma_last_stop(b);
    }
    if a.len() == 0 {
        if b.len() > 0 {
            assert(stops_at(a, b.last().0) == stops_at(b, b.last().0));
        }
        assert(a =~= b);
    } else {
        assert(stops_at(a, a.last().0) == stops_at(b, a.last().0));
        assert(b.len() > 0);
        assert(stops_at(a, b.last().0) == stops_at(b, b.last().0));
        assert(a.last() == b.last());
        let x = a.drop_last();
        let y = b.drop_last();
        assert forall|i: int, j: int| 0 <= i <= j < x.len() implies (#[trigger] x[i]).0 <= (
        #[trigger] x[j]).0 by {
            assert(x[i] == a[i] && x[j] == a[j]);
        }
        assert forall|i: int, j: int| 0 <= i <= j < y.len() implies (#[trigger] y[i]).0 <= (
        #[trigger] y[j]).0 by {
            assert(y[i] == b[i] && y[j] == b[j]);
        }
        assert forall|offset: usize| #[trigger] stops_at(x, offset) == stops_at(y, offset) by {
            assert(stops_at(a, offset) == stops_at(b, offset));
            if offset == a.last().0 {
                assert(stops_at(a, offset).drop_last() =~= stops_at(x, offset));
                assert(stops_at(b, offset).drop_last() =~= stops_at(y, offset));
            }
        }
        lemma_same_stops(x, y);
        assert(a =~= x.push(a.last()));
        assert(b =~= y.push(b.last()));
    }
}

/// The cursor at the first chunk of an image, kept until its last chunk arrives, which may be
/// in a later batch.
#[derive(Clone, Copy, Debug, PartialEq, Eq, Structural)]
pub struct PendingMediaCursor {
    pub image_id: u32,
    pub row: i32,
    pub column: u32,
}

/// A column number in 32 bits, or the largest one.
pub open spec fn column_number(column: int) -> u32 {
    if column <= u32::MAX {
        column as u32
    } else {
        u32::MAX
    }
}

/// A column number in 32 bits, or the largest one.
pub fn clamp_column(column: usize) -> (c: u32)
    ensures
        c == column_number(column as int),
{
    if column <= u32::MAX as usize {
        column as u32
    } else {
        u32::MAX
    }
}

/// The action letter that places an image at the cursor.
pub const PLACE_AT_CURSOR: u8 = 0x54;

/// What a stop makes of the cursor: the cursor pending afterwards, and the cell of a
/// completed image, if it gets one.
pub open spec fn cursor_taken(
    stop: Boundary,
    pending: Option<PendingMediaCursor>,
    row: i32,
    column: int,
) -> (Option<PendingMediaCursor>, Option<(usize, i32, u32)>) {
    match stop {
        Boundary::Marker { .. } => (pending, None),
        Boundary::Placement { image_id, action } => if action == Some(PLACE_AT_CURSOR) {
            (Some(PendingMediaCursor { image_id, row, column: column_number(column) }), None)
        } else {
            (pending, None)
        },
        Boundary::Media { index, image_id, action, placement_from_pending } => if action != Some(
            PLACE_AT_CURSOR,
        ) {
            (pending, None)
        } else if !placement_from_pending {
            (pending, Some((index, row, column_number(column))))
        } else {
            match pending {
                // A cursor that belongs to another image stays pending.
                Some(cursor) => if cursor.image_id == image_id {
                    (None, Some((index, cursor.row, cursor.column)))
                } else {
                    (pending, None)
                },
                None => (pending, None),
            }
        },
    }
}

/// Take the cursor at a stop: it may wait for the last chunk of an image, or become the cell of a
/// completed one.
pub fn take_cursor(
    stop: Boundary,
    pending: &mut Option<PendingMediaCursor>,
    cells: &mut Vec<(usize, i32, u32)>,
    cursor_line: i32,
    cursor_column: usize,
)
    ensures
        ({
            let taken = cursor_taken(stop, *old(pending), cursor_line, cursor_column as int);
            &&& *final(pending) == taken.0
            &&& final(cells)@ == (match taken.1 {
                Some(cell) => old(cells)@.push(cell),
                None => old(cells)@,
            })
        }),
{
    match stop {
        Boundary::Marker { .. } => {},
        Boundary::Placement { image_id, action } => {
            if action == Some(PLACE_AT_CURSOR) {
                *pending = Some(
                    PendingMediaCursor {
                        image_id,
                        row: cursor_line,
                        column: clamp_column(cursor_column),
                    },
                );
            }
        },
        Boundary::Media { index, image_id, action, placement_from_pending } => {
            if action == Some(PLACE_AT_CURSOR) {
                if placement_from_pending {
                    match *pending {
                        Some(cursor) => {
                            if cursor.image_id == image_id {
                                *pending = None;
                                cells.push((index, cursor.row, cursor.column));
                            }
                        },
                        None => {},
                    }
                } else {
                    cells.push((index, cursor_line, clamp_column(cursor_column)));
                }
            }
        },
    }
}

/// The stops of a walk: those of its shell markers and media events ordered by offset, at one
/// offset the markers first, and each kind in arrival order.
pub open spec fn walk_stops(events: Seq<OscEvent>, media_events: Seq<ScanEvent>) -> Seq<
    (usize, Boundary),
> {
    choose|stops: Seq<(usize, Boundary)>|
        stably_sorted(stops, osc_stops(events) + scan_stops(media_events))
}

proof fn lemma_stop_count(stops: Seq<(usize, Boundary)>, stop: (usize, Boundary))
    ensures
        stops.to_multiset().count(stop) == stops_at(stops, stop.0).to_multiset().count(stop),
    decreases stops.len(),
{
    broadcast use vstd::seq_lib::group_to_multiset_ensures;

    if stops.len() > 0 {
        let head = stops.drop_last();
        let last = stops.last();
        lemma_stop_count(head, stop);
        assert(stops =~= head.push(last));
        assert(stops.to_multiset() == head.to_multiset().insert(last));
    }
}

/// A walk stops once for every shell marker and every media event but an action, and nowhere
/// else.
pub proof fn law_every_event_has_its_stop(events: Seq<OscEvent>, media_events: Seq<ScanEvent>)
    ensures
        stably_sorted(
            walk_stops(events, media_events),
            osc_stops(events) + scan_stops(media_events),
        ),
        walk_stops(events, media_events).to_multiset() == (osc_stops(events) + scan_stops(
            media_events,
        )).to_multiset(),
{
    let merged = osc_stops(events) + scan_stops(media_events);
    let stops = walk_stops(events, media_events);
    let sorted = lemma_order_exists(merged);
    assert(stably_sorted(sorted, merged));
    assert forall|stop: (usize, Boundary)|
        #![trigger stops.to_multiset().count(stop)]
        stops.to_multiset().count(stop) == merged.to_multiset().count(stop) by {
        lemma_stop_count(stops, stop);
        lemma_stop_count(merged, stop);
        assert(stops_at(stops, stop.0) == stops_at(merged, stop.0));
    }
    assert(stops.to_multiset() =~= merged.to_multiset());
}

/// A walk once it has come to its first `n` stops.
pub open spec fn point_at(
    start: WalkPoint,
    bytes: Seq<u8>,
    stops: Seq<(usize, Boundary)>,
    n: int,
) -> WalkPoint
    decreases n,
{
    if n <= 0 {
        start
    } else {
        point_at(start, bytes, stops, n - 1).to(bytes, stops[n - 1].0 as int)
    }
}

/// A walk at the end of its batch.
pub open spec fn walk_end(
    start: WalkPoint,
    bytes: Seq<u8>,
    stops: Seq<(usize, Boundary)>,
) -> WalkPoint {
    point_at(start, bytes, stops, stops.len() as int).to(bytes, bytes.len() as int).finished()
}

/// What the first `n` stops make of the cursors that are read at them: the cursor pending
/// afterwards, and the cells of completed images.
pub open spec fn cursors_taken(
    start: WalkPoint,
    bytes: Seq<u8>,
    stops: Seq<(usize, Boundary)>,
    pending: Option<PendingMediaCursor>,
    n: int,
) -> (Option<PendingMediaCursor>, Seq<(usize, i32, u32)>)
    decreases n,
{
    if n <= 0 {
        (pending, Seq::empty())
    } else {
        let before = cursors_taken(start, bytes, stops, pending, n - 1);
        let cursor = crate::emulator::cursor_at(point_at(start, bytes, stops, n).steps);
        let taken = cursor_taken(stops[n - 1].1, before.0, cursor.0, cursor.1 as int);
        (
            taken.0,
            match taken.1 {
                Some(cell) => before.1.push(cell),
                None => before.1,
            },
        )
    }
}

/// The cursor of each stop is read when exactly the bytes before its offset have been fed.
pub proof fn law_cursor_is_read_at_its_offset(
    start: WalkPoint,
    bytes: Seq<u8>,
    stops: Seq<(usize, Boundary)>,
    n: int,
)
    requires
        bytes.len() <= usize::MAX,
        start.addressing.consumed == 0,
        by_offset(stops),
        0 <= n <= stops.len(),
    ensures
        ({
            let here = point_at(start, bytes, stops, n);
            let offset = if n == 0 {
                0
            } else {
                crate::row_addressing::least(stops[n - 1].0 as int, bytes.len() as int)
            };
            &&& here.addressing.consumed == offset
            &&& here.addressing.capacity == start.addressing.capacity
            &&& crate::emulator::fed_in(here.steps) == crate::emulator::fed_in(start.steps)
                + bytes.take(offset)
            &&& crate::emulator::size_after(here.steps) == crate::emulator::size_after(start.steps)
        }),
    decreases n,
{
    let fed = crate::emulator::fed_in(start.steps);
    if n == 0 {
        assert(fed + bytes.take(0) =~= fed);
    } else {
        law_cursor_is_read_at_its_offset(start, bytes, stops, n - 1);
        let before = point_at(start, bytes, stops, n - 1);
        crate::row_addressing::law_walk_feeds_up_to_the_offset(
            before,
            bytes,
            stops[n - 1].0 as int,
        );
        if n > 1 {
            assert(stops[n - 2].0 <= stops[n - 1].0);
        }
        let from = before.addressing.consumed as int;
        let to = crate::row_addressing::least(stops[n - 1].0 as int, bytes.len() as int);
        assert(fed + bytes.take(from) + bytes.subrange(from, to) =~= fed + bytes.take(to));
    }
}

/// A walk feeds its whole batch, once and in order.
pub proof fn law_walk_feeds_the_batch(
    start: WalkPoint,
    bytes: Seq<u8>,
    stops: Seq<(usize, Boundary)>,
)
    requires
        bytes.len() <= usize::MAX,
        start.addressing.consumed == 0,
        by_offset(stops),
    ensures
        ({
            let end = walk_end(start, bytes, stops);
            &&& end.addressing.consumed == bytes.len()
            &&& crate::emulator::fed_in(end.steps) == crate::emulator::fed_in(start.steps) + bytes
            &&& crate::emulator::size_after(end.steps) == crate::emulator::size_after(start.steps)
        }),
{
    let n = stops.len() as int;
    law_cursor_is_read_at_its_offset(start, bytes, stops, n);
    let last = point_at(start, bytes, stops, n);
    crate::row_addressing::law_walk_feeds_up_to_the_offset(last, bytes, bytes.len() as int);
    let from = last.addressing.consumed as int;
    let fed = crate::emulator::fed_in(start.steps);
    assert(fed + bytes.take(from) + bytes.subrange(from, bytes.len() as int) =~= fed + bytes);
    crate::emulator::lemma_step(
        last.to(bytes, bytes.len() as int).steps,
        crate::emulator::EmulatorStep::Limit(
            last.to(bytes, bytes.len() as int).addressing.capacity,
        ),
    );
}

/// A completed image that is to be placed at the cursor gets the cell where the cursor stood
/// when the bytes before it had been fed, and what other stops make of their cursors does not
/// touch it.
pub proof fn law_image_gets_the_cell_of_its_offset(
    start: WalkPoint,
    bytes: Seq<u8>,
    stops: Seq<(usize, Boundary)>,
    pending: Option<PendingMediaCursor>,
    at: int,
    n: int,
)
    requires
        0 <= at < n <= stops.len(),
        stops[at].1 is Media,
        stops[at].1->Media_action == Some(PLACE_AT_CURSOR),
        !stops[at].1->placement_from_pending,
    ensures
        ({
            let cursor = crate::emulator::cursor_at(point_at(start, bytes, stops, at + 1).steps);
            let cells = cursors_taken(start, bytes, stops, pending, n).1;
            let k = cursors_taken(start, bytes, stops, pending, at).1.len() as int;
            &&& k < cells.len()
            &&& cells[k] == (
                stops[at].1->index,
                cursor.0,
                column_number(cursor.1 as int),
            )
        }),
    decreases n,
{
    if n > at + 1 {
        law_image_gets_the_cell_of_its_offset(start, bytes, stops, pending, at, n - 1);
    }
}

/// Whether a stop completes an image that is to be placed at a cursor.
pub open spec fn placing(stop: Boundary) -> bool {
    stop is Media && stop->Media_action == Some(PLACE_AT_CURSOR)
}

/// No stop but an image that is to be placed gets a cell.
pub proof fn law_only_placed_images_get_cells(
    start: WalkPoint,
    bytes: Seq<u8>,
    stops: Seq<(usize, Boundary)>,
    pending: Option<PendingMediaCursor>,
    n: int,
)
    requires
        0 < n <= stops.len(),
        !placing(stops[n - 1].1),
    ensures
        cursors_taken(start, bytes, stops, pending, n).1 == cursors_taken(
            start,
            bytes,
            stops,
            pending,
            n - 1,
        ).1,
{
}

/// A shell marker stops the walk behind its last byte, and a placement or an image where it arrived;
/// a report of a directory and an action do not stop it.
pub proof fn law_stops_stand_at_their_offsets(
    events: Seq<OscEvent>,
    event: OscEvent,
    media_events: Seq<ScanEvent>,
    media_event: ScanEvent,
)
    ensures
        osc_stops(Seq::empty()).len() == 0,
        scan_stops(Seq::empty()).len() == 0,
        event is Cwd ==> osc_stops(events.push(event)) == osc_stops(events),
        event matches OscEvent::ShellMarker { kind, exit_code, end_offset } ==> osc_stops(
            events.push(event),
        ) == osc_stops(events).push((end_offset, Boundary::Marker { kind, exit_code })),
        media_event is Action ==> scan_stops(media_events.push(media_event)) == scan_stops(
            media_events,
        ),
        media_event matches ScanEvent::Placement { image_id, grid_offset, action } ==> scan_stops(
            media_events.push(media_event),
        ) == scan_stops(media_events).push((grid_offset, Boundary::Placement { image_id, action })),
        media_event matches ScanEvent::Media {
            index,
            image_id,
            grid_offset,
            action,
            placement_from_pending,
        } ==> scan_stops(media_events.push(media_event)) == scan_stops(media_events).push(
            (grid_offset, Boundary::Media { index, image_id, action, placement_from_pending }),
        ),
{
    assert(events.push(event).drop_last() =~= events);
    assert(media_events.push(media_event).drop_last() =~= media_events);
    assert(osc_stops(events.push(event)) =~= osc_stops(events) + osc_stop(event));
    assert(osc_stops(events) + Seq::<(usize, Boundary)>::empty() =~= osc_stops(events));
    assert(scan_stops(media_events) + Seq::<(usize, Boundary)>::empty() =~= scan_stops(
        media_events,
    ));
    match event {
        OscEvent::ShellMarker { kind, exit_code, end_offset } => {
            assert(osc_stops(events.push(event)) =~= osc_stops(events).push(
                (end_offset, Boundary::Marker { kind, exit_code }),
            ));
        },
        OscEvent::Cwd(_) => {},
    }
    assert(scan_stops(media_events.push(media_event)) == scan_stops(media_events) + scan_stop(
        media_event,
    ));
    if scan_stop(media_event).len() == 1 {
        assert(scan_stops(media_events.push(media_event)) =~= scan_stops(media_events).push(
            scan_stop(media_event)[0],
        ));
    }
}

/// An image that arrives in pieces stands where the cursor was when its placement was announced,
/// wherever the cursor is when the last piece arrives; the announcement is then used up. One that
/// was announced for another image stays, and only what is to be transmitted and shown (`T`) is
/// placed at all.
pub proof fn law_announced_cursor_waits_for_its_image(
    image_id: u32,
    other_id: u32,
    action: Option<u8>,
    index: usize,
    pending: Option<PendingMediaCursor>,
    announced: (i32, int),
    completed: (i32, int),
)
    requires
        0 <= announced.1,
        0 <= completed.1,
        image_id != other_id,
    ensures
        ({
            let column = if announced.1 <= u32::MAX {
                announced.1 as u32
            } else {
                u32::MAX
            };
            let waiting = cursor_taken(
                Boundary::Placement { image_id, action: Some(0x54) },
                pending,
                announced.0,
                announced.1,
            );
            let from_pending = |id: u32|
                cursor_taken(
                    Boundary::Media {
                        index,
                        image_id: id,
                        action: Some(0x54),
                        placement_from_pending: true,
                    },
                    waiting.0,
                    completed.0,
                    completed.1,
                );
            &&& waiting.1 is None
            &&& from_pending(image_id) == (
                None::<PendingMediaCursor>,
                Some((index, announced.0, column)),
            )
            &&& from_pending(other_id) == (waiting.0, None::<(usize, i32, u32)>)
        }),
        action != Some(0x54u8) ==> cursor_taken(
            Boundary::Placement { image_id, action },
            pending,
            announced.0,
            announced.1,
        ) == (pending, None::<(usize, i32, u32)>),
        action != Some(0x54u8) ==> forall|from_pending: bool|
            #[trigger] cursor_taken(
                Boundary::Media { index, image_id, action, placement_from_pending: from_pending },
                pending,
                announced.0,
                announced.1,
            ) == (pending, None::<(usize, i32, u32)>),
        cursor_taken(
            Boundary::Media {
                index,
                image_id,
                action: Some(0x54),
                placement_from_pending: true,
            },
            None,
            completed.0,
            completed.1,
        ).1 is None,
{
}

/// A column that 32 bits hold is that column.
pub proof fn law_column_is_kept(column: int)
    requires
        0 <= column,
    ensures
        column <= 0xffff_ffff ==> column_number(column) == column,
        column > 0xffff_ffff ==> column_number(column) == 0xffff_ffff,
{
}

/// A column is told as it is, up to the largest one that can be told.
pub proof fn law_column_is_told_as_it_is(column: int)
    requires
        0 <= column,
    ensures
        column < 0x1_0000_0000 ==> column_number(column) == column,
        column >= 0x1_0000_0000 ==> column_number(column) == 0xffff_ffff,
{
}

} // verus!
