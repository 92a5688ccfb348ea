//! Synchronized updates: a program brackets a redraw by `ESC [ ? 2026 h` and `ESC [ ? 2026 l`, and
//! what it writes in between is shown at once.
use vstd::prelude::*;

verus! {

/// What both sequences begin with.
pub open spec fn sync_opening() -> Seq<u8> {
    seq![0x1b, 0x5b, 0x3f, 0x32, 0x30, 0x32, 0x36]
}

/// The sequence that begins an update.
pub open spec fn begin_update() -> Seq<u8> {
    sync_opening().push(0x68)
}

/// The sequence that ends an update.
pub open spec fn end_update() -> Seq<u8> {
    sync_opening().push(0x6c)
}

/// Follows the synchronized updates in a stream of bytes.
#[derive(Clone, Copy, Debug, PartialEq, Eq, Structural)]
pub struct SyncTracker {
    /// How much of a sequence the stream ends with.
    pub matched: usize,
    /// An update is open.
    pub open: bool,
}

impl SyncTracker {
    /// No more is matched than both sequences share.
    pub open spec fn wf(self) -> bool {
        self.matched <= 7
    }

    /// The tracker after one more byte.
    pub open spec fn stepped(self, byte: u8) -> SyncTracker {
        if self.matched == 7 && byte == 0x68 {
            SyncTracker { matched: 0, open: true }
        } else if self.matched == 7 && byte == 0x6c {
            SyncTracker { matched: 0, open: false }
        } else if byte == 0x1b {
            SyncTracker { matched: 1, ..self }
        } else if 0 < self.matched < 7 && byte == sync_opening()[self.matched as int] {
            SyncTracker { matched: (self.matched + 1) as usize, ..self }
        } else {
            SyncTracker { matched: 0, ..self }
        }
    }

    /// The tracker after a chunk of the stream.
    pub open spec fn after(self, bytes: Seq<u8>) -> SyncTracker
        decreases bytes.len(),
    {
        if bytes.len() == 0 {
            self
        } else {
            self.after(bytes.drop_last()).stepped(bytes.last())
        }
    }

    /// Whether an open update ends within a chunk.
    pub open spec fn ends_in(self, bytes: Seq<u8>) -> bool {
        exists|i: int|
            0 <= i < bytes.len() && (#[trigger] self.after(bytes.take(i))).open && !self.after(
                bytes.take(i),
            ).stepped(bytes[i]).open
    }

    /// A tracker that has seen nothing.
    pub fn new() -> (tracker: SyncTracker)
        ensures
            tracker.wf(),
            tracker == (SyncTracker { matched: 0, open: false }),
    {
        SyncTracker { matched: 0, open: false }
    }

    fn step(&mut self, byte: u8)
        requires
            old(self).wf(),
        ensures
            final(self).wf(),
            *final(self) == old(self).stepped(byte),
    {
        let opening: [u8; 7] = [0x1b, 0x5b, 0x3f, 0x32, 0x30, 0x32, 0x36];
        assert(opening@ =~= sync_opening());
        if self.matched == 7 && byte == 0x68 {
            self.matched = 0;
            self.open = true;
        } else if self.matched == 7 && byte == 0x6c {
            self.matched = 0;
            self.open = false;
        } else if byte == 0x1b {
            self.matched = 1;
        } else if self.matched > 0 && self.matched < 7 && byte == opening[self.matched] {
            self.matched = self.matched + 1;
        } else {
            self.matched = 0;
        }
    }

    /// Take in a chunk, and say whether an open update ends within it.
    pub fn parse(&mut self, bytes: &[u8]) -> (ended: bool)
        requires
            old(self).wf(),
        ensures
            final(self).wf(),
            *final(self) == old(self).after(bytes@),
            ended == old(self).ends_in(bytes@),
    {
        let mut ended = false;
        let mut i: usize = 0;
        assert(bytes@.take(0) =~= Seq::<u8>::empty());
        while i < bytes.len()
            invariant
                i <= bytes@.len(),
                self.wf(),
                *self == old(self).after(bytes@.take(i as int)),
                ended <==> exists|k: int|
                    0 <= k < i && (#[trigger] old(self).after(bytes@.take(k))).open && !old(
                        self,
                    ).after(bytes@.take(k)).stepped(bytes@[k]).open,
            decreases bytes@.len() - i,
        {
            assert(bytes@.take(i + 1).drop_last() =~= bytes@.take(i as int));
            let was_open = self.open;
            self.step(bytes[i]);
            if was_open && !self.open {
                assert(old(self).after(bytes@.take(i as int)).open);
                ended = true;
            }
            i += 1;
        }
        assert(bytes@.take(i as int) =~= bytes@);
        ended
    }

    /// Whether an update is open.
    pub fn is_in_sync(&self) -> (open: bool)
        ensures
            open == self.open,
    {
        self.open
    }

    /// Ends an update that has lasted too long.
    pub fn close(&mut self)
        ensures
            *final(self) == (SyncTracker { open: false, ..*old(self) }),
    {
        self.open = false;
    }
}

/// However the stream is cut into chunks, the tracker ends in one state.
pub proof fn law_chunks_join(tracker: SyncTracker, a: Seq<u8>, b: Seq<u8>)
    ensures
        tracker.after(a + b) == tracker.after(a).after(b),
    decreases b.len(),
{
    if b.len() == 0 {
        assert(a + b =~= a);
    } else {
        law_chunks_join(tracker, a, b.drop_last());
        assert((a + b).drop_last() =~= a + b.drop_last());
    }
}

/// Wherever the stream stands, a whole sequence begins or ends an update.
pub proof fn law_sequence_is_seen(tracker: SyncTracker)
    ensures
        tracker.after(begin_update()) == (SyncTracker { matched: 0, open: true }),
        tracker.after(end_update()) == (SyncTracker { matched: 0, open: false }),
{
    lemma_opening(tracker, 7);
    assert(sync_opening().take(7) =~= sync_opening());
    assert(begin_update().drop_last() =~= sync_opening());
    assert(end_update().drop_last() =~= sync_opening());
}

proof fn lemma_opening(tracker: SyncTracker, n: int)
    requires
        1 <= n <= 7,
    ensures
        tracker.after(sync_opening().take(n)) == (SyncTracker { matched: n as usize, ..tracker }),
    decreases n,
{
    assert(sync_opening().take(n).drop_last() =~= sync_opening().take(n - 1));
    assert(sync_opening().take(n).last() == sync_opening()[n - 1]);
    if n == 1 {
        assert(sync_opening().take(0) =~= Seq::<u8>::empty());
        assert(tracker.after(sync_opening().take(0)) == tracker);
        assert(sync_opening()[0] == 0x1b);
    } else {
        lemma_opening(tracker, n - 1);
        assert(n == 2 || n == 3 || n == 4 || n == 5 || n == 6 || n == 7);
        assert(sync_opening().take(n).last() == sync_opening()[n - 1]);
        assert(sync_opening()[n - 1] != 0x1b);
    }
}

/// Text without ESC neither begins nor ends an update, once no sequence is in the middle.
pub proof fn law_text_leaves_the_update_alone(tracker: SyncTracker, text: Seq<u8>)
    requires
        tracker.matched == 0,
        forall|i: int| 0 <= i < text.len() ==> #[trigger] text[i] != 0x1b,
    ensures
        tracker.after(text) == tracker,
        !tracker.ends_in(text),
    decreases text.len(),
{
    if text.len() > 0 {
        let head = text.drop_last();
        assert forall|i: int| 0 <= i < head.len() implies #[trigger] head[i] != 0x1b by {
            assert(head[i] == text[i]);
        }
        law_text_leaves_the_update_alone(tracker, head);
        assert(text[text.len() - 1] != 0x1b);
    }
    assert forall|i: int| 0 <= i < text.len() implies !((#[trigger] tracker.after(
        text.take(i),
    )).open && !tracker.after(text.take(i)).stepped(text[i]).open) by {
        let part = text.take(i);
        assert forall|k: int| 0 <= k < part.len() implies #[trigger] part[k] != 0x1b by {
            assert(part[k] == text[k]);
        }
        law_text_leaves_the_update_alone(tracker, part);
        assert(text[i] != 0x1b);
    }
}

/// A sequence that goes on in another way than `h` or `l` neither begins nor ends an update.
pub proof fn law_other_sequence_leaves_the_update_alone(tracker: SyncTracker, byte: u8)
    requires
        byte != 0x68,
        byte != 0x6c,
    ensures
        tracker.after(seq![0x1b, 0x5b, 0x3f, 0x32, 0x30, 0x32, 0x36, byte]).open == tracker.open,
{
    let whole = seq![0x1bu8, 0x5b, 0x3f, 0x32, 0x30, 0x32, 0x36, byte];
    assert(whole.drop_last() =~= sync_opening());
    lemma_opening_is_followed(tracker);
}

proof fn lemma_opening_is_followed(tracker: SyncTracker)
    ensures
        tracker.after(sync_opening()) == (SyncTracker { matched: 7, ..tracker }),
{
    lemma_opening(tracker, 7);
    assert(sync_opening().take(7) =~= sync_opening());
}

/// An update ends in two chunks exactly if it ends in one of them.
pub proof fn law_end_is_seen_in_either_chunk(tracker: SyncTracker, a: Seq<u8>, b: Seq<u8>)
    ensures
        tracker.ends_in(a + b) <==> tracker.ends_in(a) || tracker.after(a).ends_in(b),
{
    let whole = a + b;
    assert forall|i: int| 0 <= i < a.len() implies whole.take(i) == a.take(i) && whole[i] == a[i] by {
        assert(whole.take(i) =~= a.take(i));
    }
    assert forall|i: int| 0 <= i < b.len() implies whole.take(a.len() + i) == a + b.take(i)
        && whole[a.len() + i] == b[i] by {
        assert(whole.take(a.len() + i) =~= a + b.take(i));
    }
    if tracker.ends_in(a) {
        let i = choose|i: int|
            0 <= i < a.len() && (#[trigger] tracker.after(a.take(i))).open && !tracker.after(
                a.take(i),
            ).stepped(a[i]).open;
        assert(whole.take(i) == a.take(i));
    }
    if tracker.after(a).ends_in(b) {
        let i = choose|i: int|
            0 <= i < b.len() && (#[trigger] tracker.after(a).after(b.take(i))).open
                && !tracker.after(a).after(b.take(i)).stepped(b[i]).open;
        law_chunks_join(tracker, a, b.take(i));
        assert(tracker.after(whole.take(a.len() + i)).open);
    }
    if tracker.ends_in(whole) {
        let i = choose|i: int|
            0 <= i < whole.len() && (#[trigger] tracker.after(whole.take(i))).open
                && !tracker.after(whole.take(i)).stepped(whole[i]).open;
        if i < a.len() {
            assert(tracker.after(a.take(i)).open);
        } else {
            let k = i - a.len();
            assert(whole.take(a.len() + k) == a + b.take(k));
            law_chunks_join(tracker, a, b.take(k));
            assert(tracker.after(a).after(b.take(k)).open);
        }
    }
}

/// `CSI ? 2026 h` opens an update and `CSI ? 2026 l` closes it; the latter ends the one that is
/// open, and only an open one.
pub proof fn law_open_update_is_ended(tracker: SyncTracker)
    ensures
        tracker.after(seq![0x1b, 0x5b, 0x3f, 0x32, 0x30, 0x32, 0x36, 0x68]).open,
        !tracker.after(seq![0x1b, 0x5b, 0x3f, 0x32, 0x30, 0x32, 0x36, 0x6c]).open,
        tracker.ends_in(seq![0x1b, 0x5b, 0x3f, 0x32, 0x30, 0x32, 0x36, 0x6c]) <==> tracker.open,
        !tracker.open ==> !tracker.ends_in(
            seq![0x1b, 0x5b, 0x3f, 0x32, 0x30, 0x32, 0x36, 0x68],
        ),
{
    law_sequence_is_seen(tracker);
    assert(begin_update() =~= seq![0x1bu8, 0x5b, 0x3f, 0x32, 0x30, 0x32, 0x36, 0x68]);
    assert(end_update() =~= seq![0x1bu8, 0x5b, 0x3f, 0x32, 0x30, 0x32, 0x36, 0x6c]);
    let end = seq![0x1bu8, 0x5b, 0x3f, 0x32, 0x30, 0x32, 0x36, 0x6c];
    assert(end.take(7) =~= sync_opening());
    lemma_opening_is_followed(tracker);
    if tracker.open {
        assert(tracker.after(end.take(7)).open);
    } else {
        assert forall|i: int| 0 <= i < end.len() implies !(#[trigger] tracker.after(
            end.take(i),
        )).open by {
            lemma_stays_closed(tracker, end, i);
        }
        let begin = seq![0x1bu8, 0x5b, 0x3f, 0x32, 0x30, 0x32, 0x36, 0x68];
        assert forall|i: int| 0 <= i < begin.len() implies !(#[trigger] tracker.after(
            begin.take(i),
        )).open by {
            lemma_stays_closed(tracker, begin, i);
        }
    }
}

proof fn lemma_stays_closed(tracker: SyncTracker, bytes: Seq<u8>, n: int)
    requires
        !tracker.open,
        0 <= n <= bytes.len(),
        forall|i: int| 0 <= i < n ==> #[trigger] bytes[i] != 0x68,
    ensures
        !tracker.after(bytes.take(n)).open,
    decreases n,
{
    if n > 0 {
        lemma_stays_closed(tracker, bytes, n - 1);
        assert(bytes.take(n).drop_last() =~= bytes.take(n - 1));
        assert(bytes[n - 1] != 0x68);
    }
}

} // verus!
