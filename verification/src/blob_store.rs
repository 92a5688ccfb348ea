//! The rules of the content-addressed blob store.
//!
//! A blob is stored once, under the hash of its content, with a count of its references. It is
//! stored compressed where that makes it smaller. A small blob lies in the database row, a
//! larger one in a file below a directory named by the beginning of the hash.
use vstd::prelude::*;

use crate::hashing::{sha256, to_hex};
use crate::version_tree::{ContentHash, SnapshotTrigger};

verus! {

broadcast use vstd::array::group_array_axioms;

/// Blobs below this size lie in the database.
pub const INLINE_THRESHOLD: u64 = 4096;

/// What the `zstd` crate makes of bytes at a compression level, if it can.
pub uninterp spec fn zstd_encoded(bytes: Seq<u8>, level: i32) -> Option<Seq<u8>>;

/// What the `zstd` crate makes of compressed bytes, if they are a sound frame.
pub uninterp spec fn zstd_decoded(bytes: Seq<u8>) -> Option<Seq<u8>>;

/// `zstd::encode_all`: the result is a frame that `zstd::decode_all` turns back into the
/// bytes. What the frame looks like is not restated here.
#[verifier::external_body]
fn zstd_encode(bytes: &[u8], level: i32) -> (encoded: Option<Vec<u8>>)
    ensures
        match encoded {
            Some(out) => {
                &&& zstd_encoded(bytes@, level) == Some(out@)
                &&& zstd_decoded(out@) == Some(bytes@)
            },
            None => zstd_encoded(bytes@, level) is None,
        },
{
    zstd::encode_all(bytes, level).ok()
}

/// `zstd::decode_all`: what comes out depends on the bytes alone.
#[verifier::external_body]
fn zstd_decode(bytes: &[u8]) -> (decoded: Option<Vec<u8>>)
    ensures
        match decoded {
            Some(out) => zstd_decoded(bytes@) == Some(out@),
            None => zstd_decoded(bytes@) is None,
        },
{
    zstd::decode_all(bytes).ok()
}

/// The directory of a blob's file: the first byte of the hash as text.
pub fn shard_dir(hash: &ContentHash) -> (name: String)
    ensures
        name@ == crate::hashing::hex_text(hash@.take(1)),
{
    let mut first: Vec<u8> = Vec::new();
    first.push(hash[0]);
    assert(first@ =~= hash@.take(1));
    to_hex(&first)
}

/// The name of a blob's file: the whole hash as text.
pub fn hash_to_hex(hash: &ContentHash) -> (name: String)
    ensures
        name@ == crate::hashing::hex_text(hash@),
{
    let mut bytes: Vec<u8> = Vec::new();
    let mut i: usize = 0;
    while i < 32
        invariant
            i <= 32,
            bytes@ == hash@.take(i as int),
        decreases 32 - i,
    {
        bytes.push(hash[i]);
        i += 1;
        assert(hash@.take(i as int) =~= hash@.take(i - 1).push(hash@[i - 1]));
    }
    assert(hash@.take(32) =~= hash@);
    to_hex(&bytes)
}

/// The name under which the database keeps a trigger.
pub open spec fn trigger_text(trigger: SnapshotTrigger) -> Seq<char> {
    match trigger {
        SnapshotTrigger::Write => "Write"@,
        SnapshotTrigger::Close => "Close"@,
        SnapshotTrigger::Debounce => "Debounce"@,
        SnapshotTrigger::Decline => "Decline"@,
        SnapshotTrigger::Delete => "Delete"@,
    }
}

/// The name under which the database keeps a trigger.
pub fn trigger_name(trigger: SnapshotTrigger) -> (name: &'static str)
    ensures
        name@ == trigger_text(trigger),
{
    match trigger {
        SnapshotTrigger::Write => "Write",
        SnapshotTrigger::Close => "Close",
        SnapshotTrigger::Debounce => "Debounce",
        SnapshotTrigger::Decline => "Decline",
        SnapshotTrigger::Delete => "Delete",
    }
}

/// Why a blob could not be stored or read.
#[derive(Debug, Clone, Copy, PartialEq, Eq, Structural)]
pub enum BlobError {
    /// The content could not be compressed.
    CompressionFailed,
    /// The stored bytes could not be decompressed.
    DecompressionFailed,
}

/// What is stored of a blob.
#[derive(Debug)]
pub struct StoredBlob {
    /// The hash of the content.
    pub hash: ContentHash,
    /// The size of the content.
    pub size: u64,
    /// Whether the bytes are compressed.
    pub compressed: bool,
    /// The bytes to keep.
    pub bytes: Vec<u8>,
    /// Whether the bytes lie in the database row.
    pub inline: bool,
}

/// What is stored of a content, given what compression makes of it.
pub open spec fn stored_form(data: Seq<u8>, encoded: Seq<u8>) -> (Seq<u8>, bool) {
    if encoded.len() < data.len() {
        (encoded, true)
    } else {
        (data, false)
    }
}

/// What has to happen in the store when a content is put into it.
#[derive(Debug, Clone, Copy, PartialEq, Eq, Structural)]
pub enum PutAction {
    /// The blob is there: one more reference.
    Increment,
    /// Add a row with the bytes in it and one reference.
    InsertInline,
    /// Write the bytes to the blob's file, and add a row without bytes and with one reference.
    WriteFile,
}

/// What has to happen in the store when a reference is given up.
#[derive(Debug, Clone, Copy, PartialEq, Eq, Structural)]
pub enum UnrefAction {
    /// The last reference went: delete the blob.
    Delete,
    /// Set the number of references.
    SetCount(i64),
}

/// The references to a blob after a put.
pub open spec fn count_after_put(existing: Option<int>) -> int {
    match existing {
        Some(count) => count + 1,
        None => 1,
    }
}

/// The references to a blob after one was given up; nothing once the blob is gone.
pub open spec fn count_after_unref(existing: Option<int>) -> Option<int> {
    match existing {
        Some(count) => if count > 1 {
            Some(count - 1)
        } else {
            None
        },
        None => None,
    }
}

/// The rules of the store.
#[derive(Debug)]
pub struct BlobStore {}

impl BlobStore {
    /// The hash of a content.
    pub fn compute_hash(data: &[u8]) -> (hash: ContentHash)
        ensures
            hash@ == crate::hashing::sha256_digest(data@),
    {
        sha256(data)
    }

    /// What is stored of a content, given what compression makes of it.
    pub fn stored(data: &[u8], encoded: Vec<u8>) -> (blob: StoredBlob)
        ensures
            blob.hash@ == crate::hashing::sha256_digest(data@),
            blob.size as int == data@.len(),
            (blob.bytes@, blob.compressed) == stored_form(data@, encoded@),
            blob.inline == (data@.len() < INLINE_THRESHOLD),
    {
        let hash = BlobStore::compute_hash(data);
        let size = data.len() as u64;
        let compressed = encoded.len() < data.len();
        let bytes = if compressed {
            encoded
        } else {
            let mut bytes: Vec<u8> = Vec::new();
            bytes.extend_from_slice(data);
            assert(bytes@ =~= data@);
            bytes
        };
        StoredBlob { hash, size, compressed, bytes, inline: size < INLINE_THRESHOLD }
    }

    /// What is stored of a content.
    pub fn put(data: &[u8]) -> (blob: Result<StoredBlob, BlobError>)
        ensures
            match (blob, zstd_encoded(data@, 1)) {
                (Ok(blob), Some(encoded)) => {
                    &&& blob.hash@ == crate::hashing::sha256_digest(data@)
                    &&& blob.size as int == data@.len()
                    &&& (blob.bytes@, blob.compressed) == stored_form(data@, encoded)
                    &&& blob.inline == (data@.len() < INLINE_THRESHOLD)
                    &&& read_form(blob.bytes@, blob.compressed) == Some(data@)
                },
                (Err(error), None) => error == BlobError::CompressionFailed,
                _ => false,
            },
    {
        match zstd_encode(data, 1) {
            Some(encoded) => Ok(BlobStore::stored(data, encoded)),
            None => Err(BlobError::CompressionFailed),
        }
    }

    /// What a put does to the store, given the references that the blob has.
    pub fn put_action(existing: Option<i64>, inline: bool) -> (action: PutAction)
        ensures
            action == (if existing is Some {
                PutAction::Increment
            } else if inline {
                PutAction::InsertInline
            } else {
                PutAction::WriteFile
            }),
    {
        if existing.is_some() {
            PutAction::Increment
        } else if inline {
            PutAction::InsertInline
        } else {
            PutAction::WriteFile
        }
    }

    /// The content of a stored blob.
    pub fn get(bytes: Vec<u8>, compressed: bool) -> (data: Result<Vec<u8>, BlobError>)
        ensures
            match data {
                Ok(data) => read_form(bytes@, compressed) == Some(data@),
                Err(error) => error == BlobError::DecompressionFailed && read_form(
                    bytes@,
                    compressed,
                ) is None,
            },
    {
        if compressed {
            match zstd_decode(&bytes) {
                Some(data) => Ok(data),
                None => Err(BlobError::DecompressionFailed),
            }
        } else {
            Ok(bytes)
        }
    }

    /// What giving up a reference does to the store, given the references that the blob has.
    pub fn unref_action(existing: Option<i64>) -> (action: UnrefAction)
        requires
            existing matches Some(count) ==> count > i64::MIN,
        ensures
            match count_after_unref(
                match existing {
                    Some(count) => Some(count as int),
                    None => None,
                },
            ) {
                Some(count) => action matches UnrefAction::SetCount(set) && set == count,
                None => action == UnrefAction::Delete,
            },
    {
        let count: i64 = match existing {
            Some(count) => count - 1,
            None => 0,
        };
        if count <= 0 {
            UnrefAction::Delete
        } else {
            UnrefAction::SetCount(count)
        }
    }
}

/// The content of stored bytes, if they can be read.
pub open spec fn read_form(bytes: Seq<u8>, compressed: bool) -> Option<Seq<u8>> {
    if compressed {
        zstd_decoded(bytes)
    } else {
        Some(bytes)
    }
}

/// Giving up a reference undoes a put: a blob that was not there is gone again, and one that
/// was there has as many references as before.
pub proof fn law_unref_undoes_put(existing: Option<int>)
    requires
        existing matches Some(count) ==> count >= 1,
    ensures
        count_after_unref(Some(count_after_put(existing))) == existing,
{
}

/// Each trigger is kept under its own name.
pub proof fn law_triggers_have_their_names()
    ensures
        trigger_text(SnapshotTrigger::Write) == "Write"@,
        trigger_text(SnapshotTrigger::Close) == "Close"@,
        trigger_text(SnapshotTrigger::Debounce) == "Debounce"@,
        trigger_text(SnapshotTrigger::Decline) == "Decline"@,
        trigger_text(SnapshotTrigger::Delete) == "Delete"@,
{
}

/// The shorter of a content and its compressed form is stored, the content itself where they are
/// equally long; what is stored says which of the two it is, so that it can be read back.
pub proof fn law_shorter_form_is_stored(data: Seq<u8>, encoded: Seq<u8>)
    ensures
        stored_form(data, encoded).0.len() <= data.len(),
        stored_form(data, encoded).0.len() <= encoded.len(),
        stored_form(data, encoded).1 ==> stored_form(data, encoded).0 == encoded,
        !stored_form(data, encoded).1 ==> stored_form(data, encoded).0 == data,
        stored_form(data, encoded).1 <==> encoded.len() < data.len(),
        zstd_decoded(encoded) == Some(data) ==> read_form(
            stored_form(data, encoded).0,
            stored_form(data, encoded).1,
        ) == Some(data),
{
}

/// A content that is not compressed is read as it stands, and a compressed one is decompressed.
pub proof fn law_read_undoes_the_form(bytes: Seq<u8>)
    ensures
        read_form(bytes, false) == Some(bytes),
        read_form(bytes, true) == zstd_decoded(bytes),
{
}

/// A content of less than four kilobytes is kept in the database.
pub proof fn law_small_content_is_kept_inline(len: nat)
    ensures
        len < INLINE_THRESHOLD <==> len < 4096,
{
}

/// Giving up a reference takes one off the count; with the last one the blob goes, and a blob that
/// is not there or has no references goes too.
pub proof fn law_unref_takes_one(count: int)
    ensures
        count > 1 ==> count_after_unref(Some(count)) == Some(count - 1),
        count <= 1 ==> count_after_unref(Some(count)) is None,
        count_after_unref(None) is None,
        count_after_put(Some(count)) == count + 1,
        count_after_put(None) == 1,
{
}

} // verus!
