//! Staging from tape under a quota.
//!
//! The staging directory is bounded. A work unit is staged only while the
//! bytes already staged and the unit's own size stay within the quota; the
//! first unit that would not fit ends the cycle, so that a large unit at the
//! head of the queue is not overtaken by smaller ones behind it.

use crate::model::{file_views, TaccSyncFileView, TaccSyncWork};
use crate::text::{append, texts};
use crate::transfer::{staged_path, staged_path_of};
use vstd::prelude::*;

verus! {

/// One entry found below the staging directory.
#[derive(Clone, Copy, Debug, PartialEq, Eq, Structural)]
pub struct StagedEntry {
    /// whether the entry is a regular file
    pub is_file: bool,
    /// the size of the entry in bytes, where it could be read
    pub size: Option<u64>,
}

/// The bytes that an entry takes of the quota: its size where it is a
/// regular file whose size could be read, nothing otherwise.
pub open spec fn entry_bytes(entry: StagedEntry) -> nat {
    match entry.size {
        Some(size) if entry.is_file => size as nat,
        _ => 0,
    }
}

/// The bytes that the entries take of the quota.
pub open spec fn staged_total(entries: Seq<StagedEntry>) -> nat
    decreases entries.len(),
{
    if entries.len() == 0 {
        0
    } else {
        staged_total(entries.drop_last()) + entry_bytes(entries.last())
    }
}

/// The staged total grows with the entries.
pub proof fn lemma_staged_total_grows(entries: Seq<StagedEntry>, n: int)
    requires
        0 <= n <= entries.len(),
    ensures
        staged_total(entries.take(n)) <= staged_total(entries),
    decreases entries.len(),
{
    if n < entries.len() {
        lemma_staged_total_grows(entries.drop_last(), n);
        assert(entries.drop_last().take(n) =~= entries.take(n));
    } else {
        assert(entries.take(n) =~= entries);
    }
}

/// The bytes in use below the staging directory: the sum of the sizes of
/// the regular files among `entries`. There is no answer where the sum does
/// not fit in 64 bits.
pub fn calculate_directory_size(entries: &Vec<StagedEntry>) -> (total: Option<u64>)
    ensures
        total == if staged_total(entries@) <= u64::MAX {
            Some(staged_total(entries@) as u64)
        } else {
            None
        },
{
    let mut total: u64 = 0;
    let mut i: usize = 0;
    assert(entries@.take(0) =~= Seq::<StagedEntry>::empty());
    while i < entries.len()
        invariant
            0 <= i <= entries@.len(),
            total == staged_total(entries@.take(i as int)),
        decreases entries@.len() - i,
    {
        proof {
            assert(entries@.take(i + 1).drop_last() =~= entries@.take(i as int));
            assert(entries@.take(i + 1).last() == entries@[i as int]);
        }
        let entry = entries[i];
        if entry.is_file {
            if let Some(size) = entry.size {
                match total.checked_add(size) {
                    Some(sum) => {
                        total = sum;
                    },
                    None => {
                        proof {
                            lemma_staged_total_grows(entries@, i + 1);
                        }
                        return None;
                    },
                }
            }
        }
        i += 1;
    }
    assert(entries@.take(entries@.len() as int) =~= entries@);
    Some(total)
}

/// Whether a work unit of `unit_size` bytes does not fit: the bytes already
/// staged and the unit together exceed the quota.
pub open spec fn over_quota(staged_bytes: u64, unit_size: u64, transfer_quota: u64) -> bool {
    staged_bytes + unit_size > transfer_quota
}

/// Whether staging a work unit of `unit_size` bytes would exceed the quota.
/// Where it would, the stage ends its cycle and leaves the unit, and all
/// units behind it, for the next one.
pub fn exceeds_quota(staged_bytes: u64, unit_size: u64, transfer_quota: u64) -> (full: bool)
    ensures
        full == over_quota(staged_bytes, unit_size, transfer_quota),
{
    unit_size > transfer_quota || staged_bytes > transfer_quota - unit_size
}

/// The bytes in use after a cycle over work units of the given sizes, in
/// the order of the inbox, where `staged` bytes are in use before it and
/// staging a unit takes the unit's size: units are staged one after the
/// other until one does not fit.
pub open spec fn usage_after_cycle(staged: nat, sizes: Seq<u64>, transfer_quota: u64) -> nat
    decreases sizes.len(),
{
    if sizes.len() == 0 || staged + sizes[0] > transfer_quota {
        staged
    } else {
        usage_after_cycle(staged + sizes[0] as nat, sizes.drop_first(), transfer_quota)
    }
}

/// A cycle that starts within the quota ends within the quota, whatever the
/// sizes of the units in the inbox; and no cycle takes the bytes in use
/// beyond the larger of the quota and what was in use before.
pub proof fn lemma_cycle_stays_within_quota(staged: nat, sizes: Seq<u64>, transfer_quota: u64)
    ensures
        staged <= transfer_quota ==> usage_after_cycle(staged, sizes, transfer_quota)
            <= transfer_quota,
        staged > transfer_quota ==> usage_after_cycle(staged, sizes, transfer_quota) == staged,
    decreases sizes.len(),
{
    if sizes.len() > 0 && staged + sizes[0] <= transfer_quota {
        lemma_cycle_stays_within_quota(
            staged + sizes[0] as nat,
            sizes.drop_first(),
            transfer_quota,
        );
    }
}

/// The command that fetches a file of a work unit from tape into the
/// unit's staging directory.
pub open spec fn retrieval_command(
    transfer_dir: Seq<char>,
    work_id: u128,
    file: TaccSyncFileView,
) -> Seq<char> {
    "get -C -P "@ + staged_path_of(transfer_dir, work_id, file.file_name) + " : "@ + file.hpss_path
}

/// The batch of commands that fetches the files of a work unit from tape:
/// one line for each file, in the order of the unit.
pub fn retrieval_batch(work: &TaccSyncWork, transfer_dir: &str) -> (batch: Vec<String>)
    ensures
        texts(batch@) == file_views(work.files@).map_values(
            |file: TaccSyncFileView| retrieval_command(transfer_dir@, work.work_id, file),
        ),
{
    let mut batch: Vec<String> = Vec::new();
    let mut i: usize = 0;
    while i < work.files.len()
        invariant
            0 <= i <= work.files@.len(),
            batch@.len() == i,
            forall|k: int|
                0 <= k < i ==> (#[trigger] batch@[k])@ == retrieval_command(
                    transfer_dir@,
                    work.work_id,
                    work.files@[k]@,
                ),
        decreases work.files@.len() - i,
    {
        let file = &work.files[i];
        let local = staged_path(transfer_dir, work.work_id, file.file_name.as_str());
        let head = append("get -C -P ", local.as_str());
        let middle = append(head.as_str(), " : ");
        let line = append(middle.as_str(), file.hpss_path.as_str());
        batch.push(line);
        i += 1;
    }
    assert(texts(batch@) =~= file_views(work.files@).map_values(
        |file: TaccSyncFileView| retrieval_command(transfer_dir@, work.work_id, file),
    ));
    batch
}

} // verus!
