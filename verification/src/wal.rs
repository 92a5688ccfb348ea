//! The write-ahead log of snapshots.
//!
//! A record is a magic number, the sequence number, the path's hash, the parent, the content
//! and the delta, each of these three behind a byte that says whether it is there, the trigger,
//! and a checksum of all this. Numbers are little-endian. The log is a row of such records. What
//! is appended waits in memory until a commit writes it out as a whole.
use vstd::arithmetic::power::*;
use vstd::prelude::*;

use crate::version_tree::{ContentHash, DeltaRef, PathHash, SeqNo, SnapshotTrigger, VersionId};

verus! {

broadcast use vstd::array::group_array_axioms;

/// The number that opens every record.
pub const MAGIC: u32 = 0x666F_726D;

/// One record of the log.
#[derive(Debug, Clone, Copy)]
pub struct WalEntry {
    /// The position of the change.
    pub seq_no: SeqNo,
    /// The hash of the file's path.
    pub path_hash: PathHash,
    /// The version that the change builds on.
    pub parent_id: Option<VersionId>,
    /// The hash of the full content, where the change is a full snapshot.
    pub content_ref: Option<ContentHash>,
    /// The delta, where the change is one.
    pub delta_ref: Option<DeltaRef>,
    /// Why the snapshot was taken.
    pub trigger: SnapshotTrigger,
}

/// The model of a record.
#[verifier::ext_equal]
pub struct WalEntryView {
    /// The position of the change.
    pub seq_no: nat,
    /// The hash of the file's path.
    pub path_hash: Seq<u8>,
    /// The version that the change builds on.
    pub parent_id: Option<nat>,
    /// The hash of the full content.
    pub content_ref: Option<Seq<u8>>,
    /// The hash and the compressed size of the delta.
    pub delta_ref: Option<(Seq<u8>, nat)>,
    /// Why the snapshot was taken.
    pub trigger: SnapshotTrigger,
}

impl View for WalEntry {
    type V = WalEntryView;

    open spec fn view(&self) -> WalEntryView {
        WalEntryView {
            seq_no: self.seq_no as nat,
            path_hash: self.path_hash@,
            parent_id: match self.parent_id {
                Some(id) => Some(id as nat),
                None => None,
            },
            content_ref: match self.content_ref {
                Some(hash) => Some(hash@),
                None => None,
            },
            delta_ref: match self.delta_ref {
                Some(delta) => Some((delta.hash@, delta.compressed_size as nat)),
                None => None,
            },
            trigger: self.trigger,
        }
    }
}

impl WalEntryView {
    /// The numbers fit into eight bytes and the hashes have 32.
    pub open spec fn wf(self) -> bool {
        &&& self.seq_no < pow(256, 8)
        &&& self.path_hash.len() == 32
        &&& self.parent_id matches Some(id) ==> id < pow(256, 8)
        &&& self.content_ref matches Some(hash) ==> hash.len() == 32
        &&& self.delta_ref matches Some(delta) ==> delta.0.len() == 32 && delta.1 < pow(256, 8)
    }
}

/// A number as little-endian bytes.
pub open spec fn le_bytes(value: nat, count: nat) -> Seq<u8>
    decreases count,
{
    if count == 0 {
        Seq::empty()
    } else {
        seq![(value % 256) as u8] + le_bytes(value / 256, (count - 1) as nat)
    }
}

/// The number that little-endian bytes stand for.
pub open spec fn le_value(bytes: Seq<u8>) -> nat
    decreases bytes.len(),
{
    if bytes.len() == 0 {
        0
    } else {
        bytes[0] as nat + 256 * le_value(bytes.drop_first())
    }
}

/// The byte that stands for a trigger.
pub open spec fn trigger_code(trigger: SnapshotTrigger) -> u8 {
    match trigger {
        SnapshotTrigger::Write => 0,
        SnapshotTrigger::Close => 1,
        SnapshotTrigger::Debounce => 2,
        SnapshotTrigger::Decline => 3,
        SnapshotTrigger::Delete => 4,
    }
}

/// The trigger that a byte stands for; an unknown byte stands for a write.
pub open spec fn trigger_of(code: u8) -> SnapshotTrigger {
    if code == 1 {
        SnapshotTrigger::Close
    } else if code == 2 {
        SnapshotTrigger::Debounce
    } else if code == 3 {
        SnapshotTrigger::Decline
    } else if code == 4 {
        SnapshotTrigger::Delete
    } else {
        SnapshotTrigger::Write
    }
}

/// The bytes of the parent in a record.
pub open spec fn parent_bytes(parent_id: Option<nat>) -> Seq<u8> {
    match parent_id {
        Some(id) => seq![1u8] + le_bytes(id, 8),
        None => seq![0u8],
    }
}

/// The bytes of the content in a record.
pub open spec fn content_bytes(content_ref: Option<Seq<u8>>) -> Seq<u8> {
    match content_ref {
        Some(hash) => seq![1u8] + hash,
        None => seq![0u8],
    }
}

/// The bytes of the delta in a record.
pub open spec fn delta_bytes(delta_ref: Option<(Seq<u8>, nat)>) -> Seq<u8> {
    match delta_ref {
        Some(delta) => seq![1u8] + delta.0 + le_bytes(delta.1, 8),
        None => seq![0u8],
    }
}

/// The bytes of a record after its magic number.
pub open spec fn body_bytes(entry: WalEntryView) -> Seq<u8> {
    le_bytes(entry.seq_no, 8) + entry.path_hash + parent_bytes(entry.parent_id) + content_bytes(
        entry.content_ref,
    ) + delta_bytes(entry.delta_ref) + seq![trigger_code(entry.trigger)]
}

/// Where a checksum starts.
pub const CHECKSUM_BASIS: u64 = 0xcbf2_9ce4_8422_2325;

/// What a checksum is multiplied with at every byte.
pub const CHECKSUM_PRIME: u64 = 0x0000_0100_0000_01b3;

/// The checksum of bytes (FNV-1a in 64 bits).
pub open spec fn checksum(bytes: Seq<u8>) -> u64
    decreases bytes.len(),
{
    if bytes.len() == 0 {
        CHECKSUM_BASIS
    } else {
        (((checksum(bytes.drop_last()) ^ (bytes.last() as u64)) * CHECKSUM_PRIME)
            % 0x1_0000_0000_0000_0000) as u64
    }
}

/// The bytes of a record before its checksum.
pub open spec fn framed_bytes(entry: WalEntryView) -> Seq<u8> {
    le_bytes(MAGIC as nat, 4) + body_bytes(entry)
}

/// The bytes of a record.
pub open spec fn record_bytes(entry: WalEntryView) -> Seq<u8> {
    framed_bytes(entry) + le_bytes(checksum(framed_bytes(entry)) as nat, 8)
}

/// The bytes of a row of records.
pub open spec fn log_bytes(entries: Seq<WalEntryView>) -> Seq<u8>
    decreases entries.len(),
{
    if entries.len() == 0 {
        Seq::empty()
    } else {
        log_bytes(entries.drop_last()) + record_bytes(entries.last())
    }
}

/// The bytes of a log from a position on, `count` of them, if they are there.
pub open spec fn taken(log: Seq<u8>, pos: int, count: int) -> Option<Seq<u8>> {
    if pos + count <= log.len() {
        Some(log.subrange(pos, pos + count))
    } else {
        None
    }
}

/// The parent that stands at a position of a log, and where it ends.
pub open spec fn parent_at(log: Seq<u8>, pos: int) -> Option<(Option<nat>, int)> {
    if pos >= log.len() {
        None
    } else if log[pos] == 0 {
        Some((None, pos + 1))
    } else {
        match taken(log, pos + 1, 8) {
            Some(bytes) => Some((Some(le_value(bytes)), pos + 9)),
            None => None,
        }
    }
}

/// The content that stands at a position of a log, and where it ends.
pub open spec fn content_at(log: Seq<u8>, pos: int) -> Option<(Option<Seq<u8>>, int)> {
    if pos >= log.len() {
        None
    } else if log[pos] == 0 {
        Some((None, pos + 1))
    } else {
        match taken(log, pos + 1, 32) {
            Some(bytes) => Some((Some(bytes), pos + 33)),
            None => None,
        }
    }
}

/// The delta that stands at a position of a log, and where it ends.
pub open spec fn delta_at(log: Seq<u8>, pos: int) -> Option<(Option<(Seq<u8>, nat)>, int)> {
    if pos >= log.len() {
        None
    } else if log[pos] == 0 {
        Some((None, pos + 1))
    } else {
        match taken(log, pos + 1, 40) {
            Some(bytes) => Some(
                (Some((bytes.subrange(0, 32), le_value(bytes.subrange(32, 40)))), pos + 41),
            ),
            None => None,
        }
    }
}

/// The record body that stands at a position of a log, and where it ends; nothing where the
/// log ends inside it.
pub open spec fn body_at(log: Seq<u8>, pos: int) -> Option<(WalEntryView, int)> {
    match taken(log, pos, 40) {
        None => None,
        Some(head) => match parent_at(log, pos + 40) {
            None => None,
            Some((parent_id, after_parent)) => match content_at(log, after_parent) {
                None => None,
                Some((content_ref, after_content)) => match delta_at(log, after_content) {
                    None => None,
                    Some((delta_ref, after_delta)) => if after_delta >= log.len() {
                        None
                    } else {
                        Some(
                            (
                                WalEntryView {
                                    seq_no: le_value(head.subrange(0, 8)),
                                    path_hash: head.subrange(8, 40),
                                    parent_id,
                                    content_ref,
                                    delta_ref,
                                    trigger: trigger_of(log[after_delta]),
                                },
                                after_delta + 1,
                            ),
                        )
                    },
                },
            },
        },
    }
}

/// A record opens at a position of a log.
pub open spec fn opens_record(log: Seq<u8>, pos: int) -> bool {
    pos + 4 <= log.len() && le_value(log.subrange(pos, pos + 4)) == MAGIC
}

/// Whether the checksum behind a record is that of its bytes; nothing where the log ends inside
/// the checksum.
pub open spec fn sum_fits(log: Seq<u8>, pos: int, end: int) -> Option<bool> {
    match taken(log, end, 8) {
        Some(bytes) => Some(le_value(bytes) == checksum(log.subrange(pos, end))),
        None => None,
    }
}

/// The records that a log holds from a position on: reading stops where no record opens or a
/// checksum does not fit, and fails where the log ends inside a record.
pub open spec fn replayed(log: Seq<u8>, pos: int) -> Option<Seq<WalEntryView>>
    decreases log.len() - pos,
{
    if !opens_record(log, pos) {
        Some(Seq::empty())
    } else {
        match body_at(log, pos + 4) {
            None => None,
            Some((entry, end)) => if end <= pos {
                None
            } else {
                match sum_fits(log, pos, end) {
                    None => None,
                    Some(false) => Some(Seq::empty()),
                    Some(true) => match replayed(log, end + 8) {
                        None => None,
                        Some(rest) => Some(seq![entry] + rest),
                    },
                }
            },
        }
    }
}

/// Little-endian bytes stand for a number below the next power.
proof fn lemma_le_value_bound(bytes: Seq<u8>)
    ensures
        le_value(bytes) < pow(256, bytes.len()),
    decreases bytes.len(),
{
    reveal(pow);
    if bytes.len() > 0 {
        lemma_le_value_bound(bytes.drop_first());
        let rest = bytes.drop_first().len();
        assert(pow(256, bytes.len()) == 256 * pow(256, rest));
    }
}

/// A number reads back from its bytes.
pub proof fn lemma_le_round_trip(value: nat, count: nat)
    requires
        value < pow(256, count),
    ensures
        le_bytes(value, count).len() == count,
        le_value(le_bytes(value, count)) == value,
    decreases count,
{
    reveal(pow);
    if count > 0 {
        let rest = (count - 1) as nat;
        assert(pow(256, count) == 256 * pow(256, rest));
        assert(value / 256 < pow(256, rest)) by (nonlinear_arith)
            requires
                value < 256 * pow(256, rest),
        ;
        lemma_le_round_trip(value / 256, rest);
        assert(le_bytes(value, count).drop_first() =~= le_bytes(value / 256, rest));
    }
}

proof fn lemma_powers()
    ensures
        pow(256, 4) == 0x1_0000_0000,
        pow(256, 8) == 0x1_0000_0000_0000_0000,
{
    reveal_with_fuel(pow, 10);
    assert(pow(256, 4) == 0x1_0000_0000);
    assert(pow(256, 8) == 256 * (256 * (256 * (256 * pow(256, 4)))));
}

/// A record's body reads back wherever it stands, whatever follows it.
proof fn lemma_body_reads_back(before: Seq<u8>, entry: WalEntryView, after: Seq<u8>)
    requires
        entry.wf(),
    ensures
        body_at(before + body_bytes(entry) + after, before.len() as int) == Some(
            (entry, (before.len() + body_bytes(entry).len()) as int),
        ),
{
    lemma_powers();
    let log = before + body_bytes(entry) + after;
    let start = before.len() as int;
    lemma_le_round_trip(entry.seq_no, 8);
    let head = le_bytes(entry.seq_no, 8) + entry.path_hash;
    let parent = parent_bytes(entry.parent_id);
    let content = content_bytes(entry.content_ref);
    let delta = delta_bytes(entry.delta_ref);
    assert(log.subrange(start, start + 40) =~= head);
    assert(head.subrange(0, 8) =~= le_bytes(entry.seq_no, 8));
    assert(head.subrange(8, 40) =~= entry.path_hash);
    let at_parent = start + 40;
    assert(log[at_parent] == parent[0]);
    match entry.parent_id {
        Some(id) => {
            lemma_le_round_trip(id, 8);
            assert(log.subrange(at_parent + 1, at_parent + 9) =~= le_bytes(id, 8));
        },
        None => {},
    }
    let at_content = at_parent + parent.len();
    assert(log[at_content] == content[0]);
    match entry.content_ref {
        Some(hash) => {
            assert(log.subrange(at_content + 1, at_content + 33) =~= hash);
        },
        None => {},
    }
    let at_delta = at_content + content.len();
    assert(log[at_delta] == delta[0]);
    match entry.delta_ref {
        Some(pair) => {
            lemma_le_round_trip(pair.1, 8);
            let bytes = log.subrange(at_delta + 1, at_delta + 41);
            assert(bytes =~= pair.0 + le_bytes(pair.1, 8));
            assert(bytes.subrange(0, 32) =~= pair.0);
            assert(bytes.subrange(32, 40) =~= le_bytes(pair.1, 8));
        },
        None => {},
    }
    let at_trigger = at_delta + delta.len();
    assert(log[at_trigger] == trigger_code(entry.trigger));
    assert(at_trigger + 1 == start + body_bytes(entry).len());
}

/// Joining byte rows is associative.
proof fn lemma_join(a: Seq<u8>, b: Seq<u8>, c: Seq<u8>)
    ensures
        (a + b) + c == a + (b + c),
{
    assert((a + b) + c =~= a + (b + c));
}

/// A record is its magic number, its body and its checksum.
proof fn lemma_record_len(entry: WalEntryView)
    requires
        entry.wf(),
    ensures
        framed_bytes(entry).len() == 4 + body_bytes(entry).len(),
        record_bytes(entry).len() == framed_bytes(entry).len() + 8,
        body_bytes(entry).len() > 0,
        le_value(le_bytes(checksum(framed_bytes(entry)) as nat, 8)) == checksum(
            framed_bytes(entry),
        ),
{
    lemma_powers();
    lemma_le_round_trip(MAGIC as nat, 4);
    lemma_le_round_trip(checksum(framed_bytes(entry)) as nat, 8);
}

/// A record without its checksum that stands in a log is read.
proof fn lemma_framed_step(before: Seq<u8>, entry: WalEntryView, behind: Seq<u8>)
    requires
        entry.wf(),
    ensures
        opens_record(before + framed_bytes(entry) + behind, before.len() as int),
        body_at(before + framed_bytes(entry) + behind, before.len() as int + 4) == Some(
            (entry, (before.len() + framed_bytes(entry).len()) as int),
        ),
        framed_bytes(entry).len() > 4,
        (before + framed_bytes(entry) + behind).subrange(
            before.len() as int,
            (before.len() + framed_bytes(entry).len()) as int,
        ) == framed_bytes(entry),
{
    lemma_powers();
    lemma_record_len(entry);
    lemma_le_round_trip(MAGIC as nat, 4);
    let magic = le_bytes(MAGIC as nat, 4);
    let log = before + framed_bytes(entry) + behind;
    let pos = before.len() as int;
    assert(log =~= (before + magic) + body_bytes(entry) + behind);
    assert(log.subrange(pos, pos + 4) =~= magic);
    lemma_body_reads_back(before + magic, entry, behind);
    assert(log.subrange(pos, pos + framed_bytes(entry).len()) =~= framed_bytes(entry));
}

/// A record that stands in a log is read, and reading goes on behind it.
proof fn lemma_record_step(before: Seq<u8>, entry: WalEntryView, behind: Seq<u8>)
    requires
        entry.wf(),
    ensures
        ({
            let log = before + record_bytes(entry) + behind;
            let pos = before.len() as int;
            let end = (before.len() + framed_bytes(entry).len()) as int;
            &&& opens_record(log, pos)
            &&& body_at(log, pos + 4) == Some((entry, end))
            &&& sum_fits(log, pos, end) == Some(true)
            &&& end + 8 == before.len() + record_bytes(entry).len()
            &&& end > pos
        }),
{
    lemma_record_len(entry);
    let framed = framed_bytes(entry);
    let sum = le_bytes(checksum(framed) as nat, 8);
    let log = before + record_bytes(entry) + behind;
    lemma_framed_step(before, entry, sum + behind);
    assert(log =~= before + framed + (sum + behind));
    let end = (before.len() + framed.len()) as int;
    assert(log.subrange(end, end + 8) =~= sum);
}

/// Nothing that opens or continues a log stands here: behind any log, reading ends.
pub open spec fn ends_log(tail: Seq<u8>) -> bool {
    forall|before: Seq<u8>| #[trigger]
        replayed(before + tail, before.len() as int) == Some(Seq::<WalEntryView>::empty())
}

/// Reading the log of records, with anything behind it that opens no record, gives the
/// records back: what was committed survives a restart, and a tail that a crash cut off
/// before its magic number was complete is ignored.
pub proof fn law_log_reads_back(entries: Seq<WalEntryView>, tail: Seq<u8>)
    requires
        forall|i: int| 0 <= i < entries.len() ==> (#[trigger] entries[i]).wf(),
        !opens_record(tail, 0),
    ensures
        replayed(log_bytes(entries) + tail, 0) == Some(entries),
{
    assert forall|before: Seq<u8>| #[trigger]
        replayed(before + tail, before.len() as int) == Some(Seq::<WalEntryView>::empty()) by {
        let pos = before.len() as int;
        if opens_record(before + tail, pos) {
            assert((before + tail).subrange(pos, pos + 4) =~= tail.subrange(0, 4));
        }
    }
    lemma_log_reads_back(Seq::empty(), entries, tail);
    assert(Seq::<u8>::empty() + log_bytes(entries) + tail =~= log_bytes(entries) + tail);
}

/// A record whose checksum does not fit ends the log: what stands before it is read, and nothing
/// of it or behind it is.
#[verifier::rlimit(60)]
pub proof fn law_wrong_checksum_ends_the_log(
    entries: Seq<WalEntryView>,
    last: WalEntryView,
    sum: nat,
    behind: Seq<u8>,
)
    requires
        forall|i: int| 0 <= i < entries.len() ==> (#[trigger] entries[i]).wf(),
        last.wf(),
        sum < pow(256, 8),
        sum != checksum(framed_bytes(last)),
    ensures
        replayed(log_bytes(entries) + (framed_bytes(last) + le_bytes(sum, 8) + behind), 0) == Some(
            entries,
        ),
{
    let tail = framed_bytes(last) + le_bytes(sum, 8) + behind;
    lemma_le_round_trip(sum, 8);
    assert forall|before: Seq<u8>| #[trigger]
        replayed(before + tail, before.len() as int) == Some(Seq::<WalEntryView>::empty()) by {
        let log = before + tail;
        lemma_framed_step(before, last, le_bytes(sum, 8) + behind);
        assert(log =~= before + framed_bytes(last) + (le_bytes(sum, 8) + behind));
        let end = (before.len() + framed_bytes(last).len()) as int;
        assert(log.subrange(end, end + 8) =~= le_bytes(sum, 8));
    }
    lemma_log_reads_back(Seq::empty(), entries, tail);
    assert(Seq::<u8>::empty() + log_bytes(entries) + tail =~= log_bytes(entries) + tail);
}

/// The first record of a row of records stands at its beginning.
proof fn lemma_log_front(entries: Seq<WalEntryView>)
    requires
        entries.len() > 0,
    ensures
        log_bytes(entries) == record_bytes(entries[0]) + log_bytes(entries.drop_first()),
    decreases entries.len(),
{
    if entries.len() == 1 {
        assert(log_bytes(entries.drop_last()) =~= Seq::<u8>::empty());
        assert(log_bytes(entries.drop_first()) =~= Seq::<u8>::empty());
        assert(log_bytes(entries) =~= record_bytes(entries[0]) + Seq::<u8>::empty());
    } else {
        lemma_log_front(entries.drop_last());
        assert(entries.drop_last().drop_first() =~= entries.drop_first().drop_last());
        assert(log_bytes(entries) =~= record_bytes(entries[0]) + (log_bytes(
            entries.drop_first().drop_last(),
        ) + record_bytes(entries.last())));
    }
}

proof fn lemma_log_reads_back(before: Seq<u8>, entries: Seq<WalEntryView>, tail: Seq<u8>)
    requires
        forall|i: int| 0 <= i < entries.len() ==> (#[trigger] entries[i]).wf(),
        ends_log(tail),
    ensures
        replayed(before + log_bytes(entries) + tail, before.len() as int) == Some(entries),
    decreases entries.len(),
{
    let log = before + log_bytes(entries) + tail;
    let pos = before.len() as int;
    if entries.len() == 0 {
        assert(log =~= before + tail);
        assert(replayed(before + tail, pos) == Some(Seq::<WalEntryView>::empty()));
        assert(entries =~= Seq::<WalEntryView>::empty());
    } else {
        let entry = entries[0];
        let rest = entries.drop_first();
        assert(entry.wf());
        lemma_log_front(entries);
        let longer = before + record_bytes(entry);
        lemma_join(before, record_bytes(entry), log_bytes(rest));
        lemma_join(longer, log_bytes(rest), tail);
        lemma_record_step(before, entry, log_bytes(rest) + tail);
        lemma_log_reads_back(longer, rest, tail);
        assert(seq![entry] + rest =~= entries);
    }
}

/// A log that ends inside its last record is refused.
pub proof fn law_cut_record_is_refused(entries: Seq<WalEntryView>, last: WalEntryView, kept: nat)
    requires
        forall|i: int| 0 <= i < entries.len() ==> (#[trigger] entries[i]).wf(),
        last.wf(),
        4 <= kept < record_bytes(last).len(),
    ensures
        replayed(log_bytes(entries) + record_bytes(last).take(kept as int), 0) is None,
{
    lemma_cut_record(Seq::empty(), entries, last, kept);
    assert(Seq::<u8>::empty() + log_bytes(entries) + record_bytes(last).take(kept as int)
        =~= log_bytes(entries) + record_bytes(last).take(kept as int));
}

proof fn lemma_cut_record(
    before: Seq<u8>,
    entries: Seq<WalEntryView>,
    last: WalEntryView,
    kept: nat,
)
    requires
        forall|i: int| 0 <= i < entries.len() ==> (#[trigger] entries[i]).wf(),
        last.wf(),
        4 <= kept < record_bytes(last).len(),
    ensures
        replayed(
            before + log_bytes(entries) + record_bytes(last).take(kept as int),
            before.len() as int,
        ) is None,
    decreases entries.len(),
{
    let piece = record_bytes(last).take(kept as int);
    let log = before + log_bytes(entries) + piece;
    if entries.len() == 0 {
        assert(log =~= before + piece);
        lemma_cut_piece(before, last, kept);
    } else {
        let entry = entries[0];
        let rest = entries.drop_first();
        assert(entry.wf());
        lemma_log_front(entries);
        let longer = before + record_bytes(entry);
        lemma_join(before, record_bytes(entry), log_bytes(rest));
        lemma_join(longer, log_bytes(rest), piece);
        lemma_record_step(before, entry, log_bytes(rest) + piece);
        lemma_cut_record(longer, rest, last, kept);
    }
}

proof fn lemma_cut_piece(before: Seq<u8>, last: WalEntryView, kept: nat)
    requires
        last.wf(),
        4 <= kept < record_bytes(last).len(),
    ensures
        replayed(before + record_bytes(last).take(kept as int), before.len() as int) is None,
{
    lemma_powers();
    lemma_record_len(last);
    lemma_le_round_trip(MAGIC as nat, 4);
    let magic = le_bytes(MAGIC as nat, 4);
    let framed = framed_bytes(last);
    let log = before + record_bytes(last).take(kept as int);
    let pos = before.len() as int;
    if kept < framed.len() {
        let piece = body_bytes(last).take(kept - 4);
        assert(log =~= (before + magic) + piece);
        assert(log.subrange(pos, pos + 4) =~= magic);
        lemma_cut_body(before + magic, last, piece);
    } else {
        let rest = record_bytes(last).subrange(framed.len() as int, kept as int);
        assert(log =~= before + framed + rest);
        lemma_framed_step(before, last, rest);
    }
}

/// A beginning of a record's body is no body.
proof fn lemma_cut_body(before: Seq<u8>, entry: WalEntryView, piece: Seq<u8>)
    requires
        entry.wf(),
        piece.len() < body_bytes(entry).len(),
        piece == body_bytes(entry).take(piece.len() as int),
    ensures
        body_at(before + piece, before.len() as int) is None,
{
    lemma_powers();
    let log = before + piece;
    let start = before.len() as int;
    let body = body_bytes(entry);
    lemma_le_round_trip(entry.seq_no, 8);
    let parent = parent_bytes(entry.parent_id);
    let content = content_bytes(entry.content_ref);
    let delta = delta_bytes(entry.delta_ref);
    match entry.parent_id {
        Some(id) => {
            lemma_le_round_trip(id, 8);
        },
        None => {},
    }
    match entry.delta_ref {
        Some(pair) => {
            lemma_le_round_trip(pair.1, 8);
        },
        None => {},
    }
    assert(forall|i: int| 0 <= i < piece.len() ==> log[start + i] == #[trigger] body[i]);
    assert(body.len() == 40 + parent.len() + content.len() + delta.len() + 1);
    assert(body[40] == parent[0]);
    assert(body[40int + parent.len()] == content[0]);
    assert(body[40int + parent.len() + content.len()] == delta[0]);
    if piece.len() > 40 {
        assert(log[start + 40] == body[40]);
    }
    if piece.len() > 40 + parent.len() {
        assert(log[start + 40 + parent.len()] == body[40int + parent.len()]);
    }
    if piece.len() > 40 + parent.len() + content.len() {
        assert(log[start + 40 + parent.len() + content.len()] == body[40int + parent.len()
            + content.len()]);
    }
}

/// The record of every value fits the format.
pub proof fn law_every_entry_fits(entry: WalEntry)
    ensures
        entry@.wf(),
{
    lemma_powers();
}

/// The records of one commit extend the log by a row of records.
pub proof fn law_commit_extends_the_log(
    written: Seq<WalEntryView>,
    committed: Seq<WalEntryView>,
)
    ensures
        log_bytes(written) + log_bytes(committed) == log_bytes(written + committed),
    decreases committed.len(),
{
    if committed.len() == 0 {
        assert(written + committed =~= written);
        assert(log_bytes(written) + log_bytes(committed) =~= log_bytes(written));
    } else {
        law_commit_extends_the_log(written, committed.drop_last());
        assert((written + committed).drop_last() =~= written + committed.drop_last());
        assert(log_bytes(written) + log_bytes(committed) =~= log_bytes(written) + log_bytes(
            committed.drop_last(),
        ) + record_bytes(committed.last()));
    }
}

/// Appends a number's little-endian bytes.
fn push_number(out: &mut Vec<u8>, value: u64, count: usize)
    ensures
        final(out)@ == old(out)@ + le_bytes(value as nat, count as nat),
{
    let ghost start = out@;
    let mut rest: u64 = value;
    let mut i: usize = 0;
    while i < count
        invariant
            i <= count,
            start + le_bytes(value as nat, count as nat) == out@ + le_bytes(
                rest as nat,
                (count - i) as nat,
            ),
        decreases count - i,
    {
        let ghost earlier = out@;
        let byte: u8 = (rest % 256) as u8;
        out.push(byte);
        rest = rest / 256;
        i += 1;
        assert(out@ + le_bytes(rest as nat, (count - i) as nat) =~= earlier + (seq![byte]
            + le_bytes(rest as nat, (count - i) as nat)));
    }
    assert(out@ + le_bytes(rest as nat, 0) =~= out@);
}

/// Appends the bytes of a hash.
fn push_hash(out: &mut Vec<u8>, hash: &[u8; 32])
    ensures
        final(out)@ == old(out)@ + hash@,
{
    let ghost start = out@;
    let mut i: usize = 0;
    while i < 32
        invariant
            i <= 32,
            out@ == start + hash@.take(i as int),
        decreases 32 - i,
    {
        out.push(hash[i]);
        i += 1;
        assert(hash@.take(i as int) =~= hash@.take(i - 1).push(hash@[i - 1]));
    }
    assert(hash@.take(32) =~= hash@);
}

/// Appends the bytes of a parent.
fn push_parent(out: &mut Vec<u8>, parent_id: Option<u64>)
    ensures
        final(out)@ == old(out)@ + parent_bytes(
            match parent_id {
                Some(id) => Some(id as nat),
                None => None,
            },
        ),
{
    let ghost start = out@;
    match parent_id {
        Some(id) => {
            out.push(1);
            push_number(out, id, 8);
            assert(out@ =~= start + (seq![1u8] + le_bytes(id as nat, 8)));
        },
        None => {
            out.push(0);
        },
    }
}

/// Appends the bytes of a content.
fn push_content(out: &mut Vec<u8>, content_ref: &Option<[u8; 32]>)
    ensures
        final(out)@ == old(out)@ + content_bytes(
            match content_ref {
                Some(hash) => Some(hash@),
                None => None,
            },
        ),
{
    let ghost start = out@;
    match content_ref {
        Some(hash) => {
            out.push(1);
            push_hash(out, hash);
            assert(out@ =~= start + (seq![1u8] + hash@));
        },
        None => {
            out.push(0);
        },
    }
}

/// Appends the bytes of a delta.
fn push_delta(out: &mut Vec<u8>, delta_ref: &Option<DeltaRef>)
    ensures
        final(out)@ == old(out)@ + delta_bytes(
            match delta_ref {
                Some(delta) => Some((delta.hash@, delta.compressed_size as nat)),
                None => None,
            },
        ),
{
    let ghost start = out@;
    match delta_ref {
        Some(delta) => {
            out.push(1);
            push_hash(out, &delta.hash);
            push_number(out, delta.compressed_size, 8);
            assert(out@ =~= start + (seq![1u8] + delta.hash@ + le_bytes(
                delta.compressed_size as nat,
                8,
            )));
        },
        None => {
            out.push(0);
        },
    }
}

/// The checksum of a part of some bytes.
fn sum_of(bytes: &[u8], from: usize, to: usize) -> (sum: u64)
    requires
        from <= to <= bytes@.len(),
    ensures
        sum == checksum(bytes@.subrange(from as int, to as int)),
{
    let mut sum: u64 = CHECKSUM_BASIS;
    let mut i: usize = from;
    assert(bytes@.subrange(from as int, from as int) =~= Seq::<u8>::empty());
    while i < to
        invariant
            from <= i <= to <= bytes@.len(),
            sum == checksum(bytes@.subrange(from as int, i as int)),
        decreases to - i,
    {
        assert(bytes@.subrange(from as int, i + 1).drop_last() =~= bytes@.subrange(
            from as int,
            i as int,
        ));
        let mixed: u64 = sum ^ (bytes[i] as u64);
        assert(mixed * CHECKSUM_PRIME <= 0xffff_ffff_ffff_ffff * 0x100_0000_01b3);
        let wide: u128 = mixed as u128 * CHECKSUM_PRIME as u128;
        sum = (wide % 0x1_0000_0000_0000_0000) as u64;
        i += 1;
    }
    sum
}

/// Appends the bytes of a record.
pub fn encode_entry(entry: &WalEntry, out: &mut Vec<u8>)
    ensures
        final(out)@ == old(out)@ + record_bytes(entry@),
{
    let from = out.len();
    let ghost start = out@;
    push_number(out, MAGIC as u64, 4);
    push_number(out, entry.seq_no, 8);
    push_hash(out, &entry.path_hash);
    push_parent(out, entry.parent_id);
    push_content(out, &entry.content_ref);
    push_delta(out, &entry.delta_ref);
    let ghost written = out@;
    out.push(
        match entry.trigger {
            SnapshotTrigger::Write => 0,
            SnapshotTrigger::Close => 1,
            SnapshotTrigger::Debounce => 2,
            SnapshotTrigger::Decline => 3,
            SnapshotTrigger::Delete => 4,
        },
    );
    proof {
        let magic = le_bytes(MAGIC as nat, 4);
        let number = le_bytes(entry.seq_no as nat, 8);
        let hash = entry.path_hash@;
        let parent = parent_bytes(entry@.parent_id);
        let content = content_bytes(entry@.content_ref);
        let delta = delta_bytes(entry@.delta_ref);
        let trigger = seq![trigger_code(entry.trigger)];
        lemma_join(start, magic, number);
        lemma_join(start, magic + number, hash);
        lemma_join(magic, number, hash);
        lemma_join(start, magic + (number + hash), parent);
        lemma_join(magic, number + hash, parent);
        lemma_join(start, magic + (number + hash + parent), content);
        lemma_join(magic, number + hash + parent, content);
        lemma_join(start, magic + (number + hash + parent + content), delta);
        lemma_join(magic, number + hash + parent + content, delta);
        lemma_join(start, magic + (number + hash + parent + content + delta), trigger);
        lemma_join(magic, number + hash + parent + content + delta, trigger);
        assert(out@ =~= written + trigger);
    }
    assert(out@ == start + framed_bytes(entry@));
    let sum = sum_of(out.as_slice(), from, out.len());
    assert(out@.subrange(from as int, out@.len() as int) =~= framed_bytes(entry@));
    push_number(out, sum, 8);
    proof {
        lemma_join(start, framed_bytes(entry@), le_bytes(sum as nat, 8));
    }
}

/// Reads a little-endian number.
fn read_number(log: &[u8], pos: usize, count: usize) -> (value: u64)
    requires
        count <= 8,
        pos + count <= log@.len(),
    ensures
        value == le_value(log@.subrange(pos as int, pos + count)),
{
    let mut value: u64 = 0;
    let mut i: usize = count;
    assert(log@.subrange(pos + count, pos + count) =~= Seq::<u8>::empty());
    while i > 0
        invariant
            i <= count <= 8,
            pos + count <= log@.len(),
            value == le_value(log@.subrange(pos + i, pos + count)),
        decreases i,
    {
        i -= 1;
        assert(pos + i < log.len());
        let byte: u8 = log[pos + i];
        proof {
            let longer = log@.subrange(pos + i, pos + count);
            assert(longer.drop_first() =~= log@.subrange(pos + i + 1, pos + count));
            assert(longer[0] == byte);
            lemma_le_value_bound(longer);
            lemma_powers();
            if longer.len() < 8 {
                lemma_pow_strictly_increases(256, longer.len(), 8);
            }
        }
        value = value * 256 + byte as u64;
    }
    value
}

/// Reads a hash.
fn read_hash(log: &[u8], pos: usize) -> (hash: [u8; 32])
    requires
        pos + 32 <= log@.len(),
    ensures
        hash@ == log@.subrange(pos as int, pos + 32),
{
    let mut hash: [u8; 32] = [0u8; 32];
    let mut i: usize = 0;
    while i < 32
        invariant
            i <= 32,
            pos + 32 <= log@.len(),
            forall|j: int| 0 <= j < i ==> #[trigger] hash@[j] == log@[pos + j],
        decreases 32 - i,
    {
        assert(pos + i < log.len());
        hash[i] = log[pos + i];
        i += 1;
    }
    assert(hash@ =~= log@.subrange(pos as int, pos + 32));
    hash
}

/// Reads the body of a record, and where it ends; nothing where the log ends inside it.
pub fn decode_entry(log: &[u8], pos: usize) -> (read: Option<(WalEntry, usize)>)
    requires
        pos <= log@.len(),
    ensures
        match read {
            Some((entry, next)) => body_at(log@, pos as int) == Some((entry@, next as int)),
            None => body_at(log@, pos as int) is None,
        },
{
    if log.len() - pos < 40 {
        return None;
    }
    let ghost head = log@.subrange(pos as int, pos + 40);
    let seq_no = read_number(log, pos, 8);
    let path_hash = read_hash(log, pos + 8);
    assert(head.subrange(0, 8) =~= log@.subrange(pos as int, pos + 8));
    assert(head.subrange(8, 40) =~= log@.subrange(pos + 8, pos + 8 + 32));
    let mut at: usize = pos + 40;
    if at >= log.len() {
        return None;
    }
    let parent_id = if log[at] == 0 {
        at += 1;
        None
    } else if log.len() - at < 9 {
        return None;
    } else {
        let id = read_number(log, at + 1, 8);
        at += 9;
        Some(id)
    };
    if at >= log.len() {
        return None;
    }
    let content_ref = if log[at] == 0 {
        at += 1;
        None
    } else if log.len() - at < 33 {
        return None;
    } else {
        let hash = read_hash(log, at + 1);
        at += 33;
        Some(hash)
    };
    if at >= log.len() {
        return None;
    }
    let delta_ref = if log[at] == 0 {
        at += 1;
        None
    } else if log.len() - at < 41 {
        return None;
    } else {
        let hash = read_hash(log, at + 1);
        let compressed_size = read_number(log, at + 33, 8);
        proof {
            let bytes = log@.subrange(at + 1, at + 1 + 40);
            assert(bytes.subrange(0, 32) =~= hash@);
            assert(bytes.subrange(32, 40) =~= log@.subrange(at + 33, at + 33 + 8));
        }
        at += 41;
        Some(DeltaRef { hash, compressed_size })
    };
    if at >= log.len() {
        return None;
    }
    let trigger = match log[at] {
        1 => SnapshotTrigger::Close,
        2 => SnapshotTrigger::Debounce,
        3 => SnapshotTrigger::Decline,
        4 => SnapshotTrigger::Delete,
        _ => SnapshotTrigger::Write,
    };
    let entry = WalEntry { seq_no, path_hash, parent_id, content_ref, delta_ref, trigger };
    Some((entry, at + 1))
}

/// Why a log could not be read.
#[derive(Debug, Clone, Copy, PartialEq, Eq, Structural)]
pub enum WalError {
    /// The log ends inside a record.
    UnexpectedEof,
}

/// The records of a log in the order in which they were written. Reading stops at the first
/// place where no record opens or a checksum does not fit.
pub fn replay(log: &[u8]) -> (entries: Result<Vec<WalEntry>, WalError>)
    ensures
        match entries {
            Ok(entries) => replayed(log@, 0) == Some(entries@.map_values(|entry: WalEntry| entry@)),
            Err(error) => error == WalError::UnexpectedEof && replayed(log@, 0) is None,
        },
{
    let mut entries: Vec<WalEntry> = Vec::new();
    let mut pos: usize = 0;
    assert(replayed(log@, 0) matches Some(rest) ==> Seq::<WalEntryView>::empty() + rest =~= rest);
    assert(entries@.map_values(|entry: WalEntry| entry@) =~= Seq::<WalEntryView>::empty());
    loop
        invariant
            pos <= log@.len(),
            replayed(log@, 0) == (match replayed(log@, pos as int) {
                Some(rest) => Some(entries@.map_values(|entry: WalEntry| entry@) + rest),
                None => None,
            }),
        decreases log@.len() - pos,
    {
        let ghost so_far = entries@.map_values(|entry: WalEntry| entry@);
        if log.len() - pos < 4 || read_number(log, pos, 4) != MAGIC as u64 {
            assert(so_far + Seq::<WalEntryView>::empty() =~= so_far);
            return Ok(entries);
        }
        match decode_entry(log, pos + 4) {
            Some((entry, end)) => {
                if log.len() - end < 8 {
                    return Err(WalError::UnexpectedEof);
                }
                if read_number(log, end, 8) != sum_of(log, pos, end) {
                    assert(so_far + Seq::<WalEntryView>::empty() =~= so_far);
                    return Ok(entries);
                }
                entries.push(entry);
                proof {
                    assert(entries@.map_values(|entry: WalEntry| entry@) =~= so_far.push(entry@));
                    match replayed(log@, end + 8) {
                        Some(rest) => {
                            assert(so_far + (seq![entry@] + rest) =~= so_far.push(entry@) + rest);
                        },
                        None => {},
                    }
                }
                pos = end + 8;
            },
            None => {
                return Err(WalError::UnexpectedEof);
            },
        }
    }
}

/// The part of the log that has not been written out yet.
#[derive(Debug)]
pub struct Wal {
    /// The bytes of the records that wait for the next commit.
    pub pending: Vec<u8>,
}

impl View for Wal {
    type V = Seq<u8>;

    open spec fn view(&self) -> Seq<u8> {
        self.pending@
    }
}

impl Wal {
    /// A log to which nothing was appended.
    pub fn new() -> (wal: Wal)
        ensures
            wal@ == Seq::<u8>::empty(),
    {
        Wal { pending: Vec::new() }
    }

    /// Appends a record. It reaches the file with the next commit.
    pub fn append(&mut self, entry: &WalEntry)
        ensures
            final(self)@ == old(self)@ + record_bytes(entry@),
    {
        encode_entry(entry, &mut self.pending);
    }

    /// What a commit has to write behind the log and then to sync: everything that was
    /// appended since the commit before.
    pub fn commit(&mut self) -> (bytes: Vec<u8>)
        ensures
            bytes@ == old(self)@,
            final(self)@ == Seq::<u8>::empty(),
    {
        let mut bytes: Vec<u8> = Vec::new();
        std::mem::swap(&mut bytes, &mut self.pending);
        bytes
    }

    /// Forgets what was appended, once everything in the log is stored elsewhere: the file
    /// is then cut to nothing.
    pub fn checkpoint(&mut self)
        ensures
            final(self)@ == Seq::<u8>::empty(),
    {
        self.pending = Vec::new();
    }
}

} // verus!
