//! Declining a change: the file goes back to a chosen content, safe against a crash.
//!
//! The log learns of the decline first and is synced, and only then is the file written. A
//! crash between the two leaves the record in the log, from which the write can be repeated.
//! A change that the watcher sees afterwards is compared with the pending record and skipped
//! where it is the decline itself.
use vstd::prelude::*;

use crate::hashing::{same_hash, sha256};
use crate::version_tree::{ContentHash, PathHash, SeqNo, SnapshotTrigger, VersionId};
use crate::wal::{replay, WalEntry, WalError};

verus! {

broadcast use vstd::array::group_array_axioms;

/// What a decline has to do next.
#[derive(Debug, Clone, Copy, PartialEq, Eq, Structural)]
pub enum DeclineStep {
    /// Append the record to the log.
    Append,
    /// Write the log out and sync it.
    Commit,
    /// Write the file.
    WriteFile,
    /// Sync the file.
    SyncFile,
    /// Nothing is left.
    Finished,
}

/// The step that comes after a number of completed ones.
pub open spec fn step_after(completed: nat) -> DeclineStep {
    if completed == 0 {
        DeclineStep::Append
    } else if completed == 1 {
        DeclineStep::Commit
    } else if completed == 2 {
        DeclineStep::WriteFile
    } else if completed == 3 {
        DeclineStep::SyncFile
    } else {
        DeclineStep::Finished
    }
}

/// A decline under way.
#[derive(Debug)]
pub struct DeclineRun {
    /// The record for the log.
    pub entry: WalEntry,
    /// The hash of the content that the file goes back to.
    pub content_hash: ContentHash,
    /// What to do next.
    pub step: DeclineStep,
}

impl DeclineRun {
    /// The last step succeeded. A step that fails ends the decline where it stands.
    pub fn completed(&mut self)
        ensures
            final(self).entry == old(self).entry,
            final(self).content_hash == old(self).content_hash,
            forall|completed: nat|
                old(self).step == #[trigger] step_after(completed) ==> final(self).step
                    == step_after(completed + 1),
    {
        self.step =
        match self.step {
            DeclineStep::Append => DeclineStep::Commit,
            DeclineStep::Commit => DeclineStep::WriteFile,
            DeclineStep::WriteFile => DeclineStep::SyncFile,
            DeclineStep::SyncFile => DeclineStep::Finished,
            DeclineStep::Finished => DeclineStep::Finished,
        };
    }
}

/// The file is written only after the record was appended and the log was synced.
pub proof fn law_log_is_synced_before_the_file_is_written(completed: nat)
    requires
        step_after(completed) == DeclineStep::WriteFile,
    ensures
        exists|append: nat, commit: nat|
            append < commit < completed && #[trigger] step_after(append) == DeclineStep::Append
                && #[trigger] step_after(commit) == DeclineStep::Commit,
{
    assert(step_after(0) == DeclineStep::Append);
    assert(step_after(1) == DeclineStep::Commit);
}

/// The content that the first decline of a path in a log goes back to.
pub open spec fn pending_content(
    entries: Seq<crate::wal::WalEntryView>,
    path_hash: Seq<u8>,
) -> Option<Seq<u8>>
    decreases entries.len(),
{
    if entries.len() == 0 {
        None
    } else if entries[0].path_hash == path_hash && entries[0].trigger == SnapshotTrigger::Decline {
        entries[0].content_ref
    } else {
        pending_content(entries.drop_first(), path_hash)
    }
}

/// The declines among the records of a log.
pub open spec fn declines(entries: Seq<crate::wal::WalEntryView>) -> Seq<crate::wal::WalEntryView>
    decreases entries.len(),
{
    if entries.len() == 0 {
        Seq::empty()
    } else if entries.last().trigger == SnapshotTrigger::Decline {
        declines(entries.drop_last()).push(entries.last())
    } else {
        declines(entries.drop_last())
    }
}

/// Makes declines at one position of the order of changes.
#[derive(Debug)]
pub struct DeclineProtocol {
    /// The position of the change.
    pub seq_no: SeqNo,
}

impl DeclineProtocol {
    /// A protocol for the change at a position.
    pub fn new(seq_no: SeqNo) -> (protocol: DeclineProtocol)
        ensures
            protocol.seq_no == seq_no,
    {
        DeclineProtocol { seq_no }
    }

    /// Starts the decline of a file's change: the file goes back to the target content.
    pub fn execute(
        &self,
        path_hash: PathHash,
        parent_id: Option<VersionId>,
        target_content: &[u8],
    ) -> (run: DeclineRun)
        ensures
            run.step == step_after(0),
            run.content_hash@ == crate::hashing::sha256_digest(target_content@),
            run.entry.seq_no == self.seq_no,
            run.entry.path_hash@ == path_hash@,
            run.entry.parent_id == parent_id,
            run.entry.content_ref == Some(run.content_hash),
            run.entry.delta_ref is None,
            run.entry.trigger == SnapshotTrigger::Decline,
    {
        let content_hash = DeclineProtocol::compute_hash(target_content);
        let entry = WalEntry {
            seq_no: self.seq_no,
            path_hash,
            parent_id,
            content_ref: Some(content_hash),
            delta_ref: None,
            trigger: SnapshotTrigger::Decline,
        };
        DeclineRun { entry, content_hash, step: DeclineStep::Append }
    }

    /// The hash of a content.
    pub fn compute_hash(data: &[u8]) -> (hash: ContentHash)
        ensures
            hash@ == crate::hashing::sha256_digest(data@),
    {
        sha256(data)
    }

    /// The content of the first decline of a path in a log, which the watcher compares with
    /// the file.
    pub fn check_pending(log: &[u8], path_hash: PathHash) -> (pending: Result<
        Option<ContentHash>,
        WalError,
    >)
        ensures
            match (pending, crate::wal::replayed(log@, 0)) {
                (Ok(Some(hash)), Some(entries)) => pending_content(entries, path_hash@) == Some(
                    hash@,
                ),
                (Ok(None), Some(entries)) => pending_content(entries, path_hash@) is None,
                (Err(error), None) => error == WalError::UnexpectedEof,
                _ => false,
            },
    {
        let entries = match replay(log) {
            Ok(entries) => entries,
            Err(error) => {
                return Err(error);
            },
        };
        let ghost views = entries@.map_values(|entry: WalEntry| entry@);
        let mut i: usize = 0;
        assert(views.skip(0) =~= views);
        while i < entries.len()
            invariant
                i <= entries@.len(),
                views == entries@.map_values(|entry: WalEntry| entry@),
                crate::wal::replayed(log@, 0) == Some(views),
                pending_content(views, path_hash@) == pending_content(
                    views.skip(i as int),
                    path_hash@,
                ),
            decreases entries@.len() - i,
        {
            let entry: WalEntry = entries[i];
            assert(views.skip(i as int)[0] == entry@);
            if same_hash(&entry.path_hash, &path_hash) && entry.trigger
                == SnapshotTrigger::Decline {
                return Ok(entry.content_ref);
            }
            assert(views.skip(i as int).drop_first() =~= views.skip(i + 1));
            i += 1;
        }
        Ok(None)
    }

    /// The declines in a log, whose files have to be written again after a crash.
    pub fn recover(log: &[u8]) -> (pending: Result<Vec<WalEntry>, WalError>)
        ensures
            match (pending, crate::wal::replayed(log@, 0)) {
                (Ok(pending), Some(entries)) => pending@.map_values(|entry: WalEntry| entry@)
                    == declines(entries),
                (Err(error), None) => error == WalError::UnexpectedEof,
                _ => false,
            },
    {
        let entries = match replay(log) {
            Ok(entries) => entries,
            Err(error) => {
                return Err(error);
            },
        };
        let ghost views = entries@.map_values(|entry: WalEntry| entry@);
        let mut pending: Vec<WalEntry> = Vec::new();
        let mut i: usize = 0;
        assert(pending@.map_values(|entry: WalEntry| entry@) =~= declines(views.take(0)));
        while i < entries.len()
            invariant
                i <= entries@.len(),
                views == entries@.map_values(|entry: WalEntry| entry@),
                crate::wal::replayed(log@, 0) == Some(views),
                pending@.map_values(|entry: WalEntry| entry@) == declines(views.take(i as int)),
            decreases entries@.len() - i,
        {
            let entry: WalEntry = entries[i];
            let ghost before = pending@;
            proof {
                assert(views.take(i + 1).drop_last() =~= views.take(i as int));
                assert(views.take(i + 1).last() == entry@);
            }
            if entry.trigger == SnapshotTrigger::Decline {
                pending.push(entry);
                assert(pending@.map_values(|entry: WalEntry| entry@) =~= before.map_values(
                    |entry: WalEntry| entry@,
                ).push(entry@));
            }
            i += 1;
        }
        assert(views.take(views.len() as int) =~= views);
        Ok(pending)
    }
}

/// Once the record of a decline is in the log, the decline is found there: by the watcher,
/// unless an earlier decline of the same path is still pending, and by the recovery.
pub proof fn law_logged_decline_is_found(
    entries: Seq<crate::wal::WalEntryView>,
    decline: crate::wal::WalEntryView,
)
    requires
        decline.trigger == SnapshotTrigger::Decline,
    ensures
        declines(entries.push(decline)) == declines(entries).push(decline),
        pending_content(entries.push(decline), decline.path_hash) == (if exists|i: int|
            0 <= i < entries.len() && (#[trigger] entries[i]).path_hash == decline.path_hash
                && entries[i].trigger == SnapshotTrigger::Decline {
            pending_content(entries, decline.path_hash)
        } else {
            decline.content_ref
        }),
    decreases entries.len(),
{
    assert(entries.push(decline).drop_last() =~= entries);
    let all = entries.push(decline);
    if entries.len() == 0 {
        assert(all[0] == decline);
    } else {
        let first = entries[0];
        assert(all[0] == first);
        if first.path_hash == decline.path_hash && first.trigger == SnapshotTrigger::Decline {
        } else {
            let rest = entries.drop_first();
            assert(all.drop_first() =~= rest.push(decline));
            law_logged_decline_is_found(rest, decline);
            if exists|i: int|
                0 <= i < entries.len() && (#[trigger] entries[i]).path_hash == decline.path_hash
                    && entries[i].trigger == SnapshotTrigger::Decline {
                let i = choose|i: int|
                    0 <= i < entries.len() && (#[trigger] entries[i]).path_hash
                        == decline.path_hash && entries[i].trigger == SnapshotTrigger::Decline;
                assert(rest[i - 1] == entries[i]);
            } else {
                assert forall|i: int| 0 <= i < rest.len() implies !((#[trigger] rest[i]).path_hash
                    == decline.path_hash && rest[i].trigger == SnapshotTrigger::Decline) by {
                    assert(rest[i] == entries[i + 1]);
                }
            }
        }
    }
}

/// A decline appends its record, then commits the log, then writes the file and then syncs it; it
/// is finished after that and not before.
pub proof fn law_steps_come_in_order(completed: nat)
    ensures
        step_after(completed) == DeclineStep::Append <==> completed == 0,
        step_after(completed) == DeclineStep::Commit <==> completed == 1,
        step_after(completed) == DeclineStep::WriteFile <==> completed == 2,
        step_after(completed) == DeclineStep::SyncFile <==> completed == 3,
        step_after(completed) == DeclineStep::Finished <==> completed >= 4,
{
}

/// The pending content of a path is that of the first decline of the path in the log; without one
/// there is none.
pub proof fn law_first_decline_is_pending(
    entries: Seq<crate::wal::WalEntryView>,
    path_hash: Seq<u8>,
    at: int,
)
    requires
        0 <= at <= entries.len(),
        forall|i: int|
            0 <= i < at ==> (#[trigger] entries[i]).path_hash != path_hash || entries[i].trigger
                != SnapshotTrigger::Decline,
        at < entries.len() ==> entries[at].path_hash == path_hash && entries[at].trigger
            == SnapshotTrigger::Decline,
    ensures
        at < entries.len() ==> pending_content(entries, path_hash) == entries[at].content_ref,
        at == entries.len() ==> pending_content(entries, path_hash) is None,
    decreases entries.len(),
{
    if entries.len() > 0 && at > 0 {
        let rest = entries.drop_first();
        assert forall|i: int| 0 <= i < at - 1 implies (#[trigger] rest[i]).path_hash != path_hash
            || rest[i].trigger != SnapshotTrigger::Decline by {
            assert(rest[i] == entries[i + 1]);
        }
        assert(entries[0].path_hash != path_hash || entries[0].trigger
            != SnapshotTrigger::Decline);
        law_first_decline_is_pending(rest, path_hash, at - 1);
    }
}

/// What has to be written again after a crash are the declines of the log and nothing else, in the
/// order of the log.
pub proof fn law_only_declines_are_recovered(
    entries: Seq<crate::wal::WalEntryView>,
    entry: crate::wal::WalEntryView,
)
    ensures
        declines(Seq::<crate::wal::WalEntryView>::empty()).len() == 0,
        declines(entries.push(entry)) == (if entry.trigger == SnapshotTrigger::Decline {
            declines(entries).push(entry)
        } else {
            declines(entries)
        }),
{
    assert(entries.push(entry).drop_last() == entries);
}

} // verus!
