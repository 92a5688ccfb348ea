//! What a record of the log looks like, byte by byte.
use vstd::arithmetic::power::*;
use vstd::prelude::*;

use crate::version_tree::SnapshotTrigger;
use crate::wal::{WalEntryView, MAGIC};

verus! {

/// A number is written with its lowest byte first.
pub proof fn law_lowest_byte_comes_first(value: nat, count: nat, at: nat)
    requires
        at < count,
    ensures
        crate::wal::le_bytes(value, count).len() == count,
        crate::wal::le_bytes(value, count)[at as int] as nat == (value / (pow(256, at) as nat)) % 256,
    decreases count,
{
    reveal(pow);
    let rest = (count - 1) as nat;
    lemma_le_len(value, count);
    lemma_pow_positive(256, at);
    if at == 0 {
        assert(value / 1 == value);
    } else {
        let less = (at - 1) as nat;
        lemma_pow_positive(256, less);
        law_lowest_byte_comes_first(value / 256, rest, less);
        vstd::arithmetic::div_mod::lemma_div_denominator(value as int, 256, pow(256, less));
        assert(pow(256, at) == 256 * pow(256, less));
        assert(crate::wal::le_bytes(value, count)[at as int] == crate::wal::le_bytes(value / 256, rest)[at - 1]);
    }
}

proof fn lemma_le_len(value: nat, count: nat)
    ensures
        crate::wal::le_bytes(value, count).len() == count,
    decreases count,
{
    if count > 0 {
        lemma_le_len(value / 256, (count - 1) as nat);
    }
}

/// Each trigger has its code, and a code that is none stands for a write.
pub proof fn law_triggers_have_their_codes(code: u8)
    ensures
        crate::wal::trigger_code(SnapshotTrigger::Write) == 0,
        crate::wal::trigger_code(SnapshotTrigger::Close) == 1,
        crate::wal::trigger_code(SnapshotTrigger::Debounce) == 2,
        crate::wal::trigger_code(SnapshotTrigger::Decline) == 3,
        crate::wal::trigger_code(SnapshotTrigger::Delete) == 4,
        code <= 4 ==> crate::wal::trigger_code(crate::wal::trigger_of(code)) == code,
        code > 4 ==> crate::wal::trigger_of(code) == SnapshotTrigger::Write,
{
}

/// A record is laid out as its magic number, its position, its path, each of its parent, content
/// and delta behind a byte that says whether there is one, its trigger and its checksum.
pub proof fn law_record_is_laid_out(entry: WalEntryView)
    requires
        entry.wf(),
    ensures
        ({
            let record = crate::wal::record_bytes(entry);
            let parent = 44int;
            let content = parent + (if entry.parent_id is Some {
                9int
            } else {
                1
            });
            let delta = content + (if entry.content_ref is Some {
                33int
            } else {
                1
            });
            let trigger = delta + (if entry.delta_ref is Some {
                41int
            } else {
                1
            });
            &&& record.len() == trigger + 9
            &&& record[0] == 0x6d && record[1] == 0x72 && record[2] == 0x6f && record[3] == 0x66
            &&& record.subrange(4, 12) == crate::wal::le_bytes(entry.seq_no, 8)
            &&& record.subrange(12, 44) == entry.path_hash
            &&& match entry.parent_id {
                Some(id) => record[parent] == 1 && record.subrange(parent + 1, content) == crate::wal::le_bytes(
                    id,
                    8,
                ),
                None => record[parent] == 0,
            }
            &&& match entry.content_ref {
                Some(hash) => record[content] == 1 && record.subrange(content + 1, delta) == hash,
                None => record[content] == 0,
            }
            &&& match entry.delta_ref {
                Some(reference) => record[delta] == 1 && record.subrange(delta + 1, delta + 33)
                    == reference.0 && record.subrange(delta + 33, trigger) == crate::wal::le_bytes(
                    reference.1,
                    8,
                ),
                None => record[delta] == 0,
            }
            &&& record[trigger] == crate::wal::trigger_code(entry.trigger)
            &&& record.subrange(trigger + 1, trigger + 9) == crate::wal::le_bytes(
                crate::wal::checksum(record.take(trigger + 1)) as nat,
                8,
            )
        }),
{
    lemma_magic_bytes();
    lemma_le_len(MAGIC as nat, 4);
    lemma_le_len(entry.seq_no, 8);
    lemma_le_len(crate::wal::checksum(crate::wal::framed_bytes(entry)) as nat, 8);
    match entry.parent_id {
        Some(id) => {
            lemma_le_len(id, 8);
        },
        None => {},
    }
    match entry.delta_ref {
        Some(reference) => {
            lemma_le_len(reference.1, 8);
        },
        None => {},
    }
    let record = crate::wal::record_bytes(entry);
    let head = crate::wal::le_bytes(MAGIC as nat, 4) + crate::wal::le_bytes(entry.seq_no, 8) + entry.path_hash;
    let parent = crate::wal::parent_bytes(entry.parent_id);
    let content = crate::wal::content_bytes(entry.content_ref);
    let delta = crate::wal::delta_bytes(entry.delta_ref);
    let sum = crate::wal::le_bytes(crate::wal::checksum(crate::wal::framed_bytes(entry)) as nat, 8);
    let trigger = seq![crate::wal::trigger_code(entry.trigger)];
    assert(record =~= head + parent + content + delta + trigger + sum);
    assert(record.subrange(4, 12) =~= crate::wal::le_bytes(entry.seq_no, 8));
    assert(record.subrange(12, 44) =~= entry.path_hash);
    let content_at = 44 + parent.len() as int;
    let delta_at = content_at + content.len() as int;
    let trigger_at = delta_at + delta.len() as int;
    assert(record.subrange(44, content_at) =~= parent);
    assert(record.subrange(content_at, delta_at) =~= content);
    assert(record.subrange(delta_at, trigger_at) =~= delta);
    assert(record[44] == parent[0]);
    assert(record[content_at] == content[0]);
    assert(record[delta_at] == delta[0]);
    match entry.parent_id {
        Some(id) => {
            assert(record.subrange(45, content_at) =~= parent.skip(1));
            assert(parent.skip(1) =~= crate::wal::le_bytes(id, 8));
        },
        None => {},
    }
    match entry.content_ref {
        Some(hash) => {
            assert(record.subrange(content_at + 1, delta_at) =~= content.skip(1));
            assert(content.skip(1) =~= hash);
        },
        None => {},
    }
    match entry.delta_ref {
        Some(reference) => {
            assert(record.subrange(delta_at + 1, delta_at + 33) =~= delta.subrange(1, 33));
            assert(delta.subrange(1, 33) =~= reference.0);
            assert(record.subrange(delta_at + 33, trigger_at) =~= delta.skip(33));
            assert(delta.skip(33) =~= crate::wal::le_bytes(reference.1, 8));
        },
        None => {},
    }
    assert(record.take(trigger_at + 1) =~= crate::wal::framed_bytes(entry));
    assert(record.subrange(trigger_at + 1, trigger_at + 9) =~= sum);
}

proof fn lemma_magic_bytes()
    ensures
        crate::wal::le_bytes(MAGIC as nat, 4) == seq![0x6du8, 0x72u8, 0x6fu8, 0x66u8],
{
    let low = 0x666F_726Dnat;
    assert(low % 256 == 0x6d && low / 256 == 0x66_6f72);
    assert(0x66_6f72nat % 256 == 0x72 && 0x66_6f72nat / 256 == 0x666f);
    assert(0x666fnat % 256 == 0x6f && 0x666fnat / 256 == 0x66);
    assert(0x66nat % 256 == 0x66);
    reveal_with_fuel(crate::wal::le_bytes, 5);
    assert(crate::wal::le_bytes(MAGIC as nat, 4) =~= seq![0x6du8, 0x72u8, 0x6fu8, 0x66u8]);
}

/// The checksum starts from a fixed number; each byte is mixed into its lowest bits, and the whole
/// is then multiplied by a prime, within 64 bits.
pub proof fn law_checksum_mixes_each_byte(bytes: Seq<u8>, byte: u8)
    ensures
        crate::wal::checksum(Seq::<u8>::empty()) == 0xcbf2_9ce4_8422_2325,
        crate::wal::checksum(bytes.push(byte)) as int == ((crate::wal::checksum(bytes) ^ (byte as u64)) * 0x100_0000_01b3)
            % 0x1_0000_0000_0000_0000,
{
    assert(bytes.push(byte).drop_last() =~= bytes);
}

/// Any byte but zero says that a parent, a content or a delta follows.
pub proof fn law_other_flags_mean_present(log: Seq<u8>, pos: int)
    requires
        0 <= pos,
        pos + 41 <= log.len(),
        log[pos] != 0,
    ensures
        crate::wal::parent_at(log, pos) == Some((Some(crate::wal::le_value(log.subrange(pos + 1, pos + 9))), pos + 9)),
        crate::wal::content_at(log, pos) == Some((Some(log.subrange(pos + 1, pos + 33)), pos + 33)),
        crate::wal::delta_at(log, pos) == Some(
            (
                Some(
                    (
                        log.subrange(pos + 1, pos + 33),
                        crate::wal::le_value(log.subrange(pos + 33, pos + 41)),
                    ),
                ),
                pos + 41,
            ),
        ),
{
    let bytes = log.subrange(pos + 1, pos + 41);
    assert(bytes.subrange(0, 32) =~= log.subrange(pos + 1, pos + 33));
    assert(bytes.subrange(32, 40) =~= log.subrange(pos + 33, pos + 41));
}

/// Where the log ends, nothing more is read.
pub proof fn law_nothing_is_read_behind_the_end(log: Seq<u8>, pos: int)
    requires
        log.len() <= pos,
    ensures
        crate::wal::parent_at(log, pos) is None,
        crate::wal::content_at(log, pos) is None,
        crate::wal::delta_at(log, pos) is None,
        !crate::wal::opens_record(log, pos),
{
}

} // verus!
