//! What holds of a work unit over the cycles of the transfer stage.
//!
//! A cycle goes through the files of a unit in order and takes one answer of
//! the transfer service for each. It may be cut short: the stage can be
//! stopped at any file. What a cycle noted in the files is written to the
//! unit's record, and the next cycle, in the same run of the stage or in a
//! later one, starts from that record. The laws below follow a unit through
//! any number of such cycles.

use crate::model::TaccSyncFileView;
use crate::transfer::{
    answer_for, count_finished, lemma_count_finished, lemma_finished_means_succeeded, GlobusReply,
    TransferUpdate,
};
use vstd::prelude::*;

verus! {

/// Whether the answers of a cycle fit the files: there is at most one
/// answer for each file, in the order of the files, and none fails the unit.
pub open spec fn cycle_is_sound(files: Seq<TaccSyncFileView>, replies: Seq<GlobusReply>) -> bool {
    &&& replies.len() <= files.len()
    &&& forall|i: int| 0 <= i < replies.len() ==> answer_for(files[i], #[trigger] replies[i]) is Ok
}

/// The files after a cycle: each file that got an answer as the answer
/// leaves it, every other file as it was.
pub open spec fn files_after(
    files: Seq<TaccSyncFileView>,
    replies: Seq<GlobusReply>,
) -> Seq<TaccSyncFileView> {
    Seq::new(
        files.len(),
        |i: int|
            if i < replies.len() && answer_for(files[i], replies[i]) is Ok {
                answer_for(files[i], replies[i])->Ok_0.0
            } else {
                files[i]
            },
    )
}

/// What a cycle did for each file that got an answer.
pub open spec fn updates_of(
    files: Seq<TaccSyncFileView>,
    replies: Seq<GlobusReply>,
) -> Seq<TransferUpdate> {
    Seq::new(replies.len(), |i: int| answer_for(files[i], replies[i])->Ok_0.1)
}

/// How many of the first `n` files hold no task.
pub open spec fn without_task(files: Seq<TaccSyncFileView>, n: int) -> nat
    decreases n,
{
    if n <= 0 {
        0
    } else {
        without_task(files, n - 1) + if files[n - 1].globus_task_id is None {
            1nat
        } else {
            0nat
        }
    }
}

/// How many transfers a cycle submits: one for each file without a task
/// that the cycle comes to.
pub open spec fn transfers_in(files: Seq<TaccSyncFileView>, replies: Seq<GlobusReply>) -> nat {
    without_task(files, replies.len() as int)
}

/// Whether each of the cycles fits the files as the cycles before it left
/// them.
pub open spec fn cycles_are_sound(
    files: Seq<TaccSyncFileView>,
    cycles: Seq<Seq<GlobusReply>>,
) -> bool
    decreases cycles.len(),
{
    cycles.len() == 0 || (cycle_is_sound(files, cycles[0]) && cycles_are_sound(
        files_after(files, cycles[0]),
        cycles.drop_first(),
    ))
}

/// The files after a number of cycles.
pub open spec fn files_after_all(
    files: Seq<TaccSyncFileView>,
    cycles: Seq<Seq<GlobusReply>>,
) -> Seq<TaccSyncFileView>
    decreases cycles.len(),
{
    if cycles.len() == 0 {
        files
    } else {
        files_after_all(files_after(files, cycles[0]), cycles.drop_first())
    }
}

/// How many transfers a number of cycles submit together.
pub open spec fn transfers_in_all(
    files: Seq<TaccSyncFileView>,
    cycles: Seq<Seq<GlobusReply>>,
) -> nat
    decreases cycles.len(),
{
    if cycles.len() == 0 {
        0
    } else {
        transfers_in(files, cycles[0]) + transfers_in_all(
            files_after(files, cycles[0]),
            cycles.drop_first(),
        )
    }
}

/// Among the first `m` files, those without a task before a cycle are those
/// for which the cycle submits a transfer and those still without a task
/// after it.
proof fn lemma_cycle_keeps_count(files: Seq<TaccSyncFileView>, replies: Seq<GlobusReply>, m: int)
    requires
        cycle_is_sound(files, replies),
        0 <= m <= files.len(),
    ensures
        without_task(files, m) == without_task(
            files,
            if m < replies.len() {
                m
            } else {
                replies.len() as int
            },
        ) + without_task(files_after(files, replies), m),
    decreases m,
{
    if m > 0 {
        lemma_cycle_keeps_count(files, replies, m - 1);
        if m - 1 < replies.len() {
            assert(answer_for(files[m - 1], replies[m - 1]) is Ok);
        }
    }
}

/// Restart safety, for one cycle: every file without a task that a cycle
/// comes to gets exactly one transfer, and holds a task afterwards. So the
/// transfers that the cycle submits and the files that still lack a task
/// after it add up to the files that lacked one before it.
pub proof fn lemma_cycle_submits_once(files: Seq<TaccSyncFileView>, replies: Seq<GlobusReply>)
    requires
        cycle_is_sound(files, replies),
    ensures
        files_after(files, replies).len() == files.len(),
        transfers_in(files, replies) + without_task(
            files_after(files, replies),
            files.len() as int,
        ) == without_task(files, files.len() as int),
{
    lemma_cycle_keeps_count(files, replies, files.len() as int);
}

/// Restart safety: over any number of cycles, however many of them were cut
/// short, the transfers submitted for a unit and the files that still lack
/// a task add up to the files that lacked a task at the start.
pub proof fn lemma_cycles_submit_once(files: Seq<TaccSyncFileView>, cycles: Seq<Seq<GlobusReply>>)
    requires
        cycles_are_sound(files, cycles),
    ensures
        files_after_all(files, cycles).len() == files.len(),
        transfers_in_all(files, cycles) + without_task(
            files_after_all(files, cycles),
            files.len() as int,
        ) == without_task(files, files.len() as int),
    decreases cycles.len(),
{
    if cycles.len() > 0 {
        lemma_cycle_submits_once(files, cycles[0]);
        lemma_cycles_submit_once(files_after(files, cycles[0]), cycles.drop_first());
    }
}

/// A sequence of files of which none holds a task lacks as many tasks as it
/// has files, and one of which each holds a task lacks none.
pub proof fn lemma_without_task_bounds(files: Seq<TaccSyncFileView>, n: int)
    requires
        0 <= n <= files.len(),
    ensures
        (forall|i: int| 0 <= i < n ==> (#[trigger] files[i]).globus_task_id is None)
            ==> without_task(files, n) == n,
        (forall|i: int| 0 <= i < n ==> (#[trigger] files[i]).globus_task_id is Some)
            <==> without_task(files, n) == 0,
    decreases n,
{
    if n > 0 {
        lemma_without_task_bounds(files, n - 1);
    }
}

/// Restart safety, for a new unit: once every file of a unit that started
/// without any task holds one, as many transfers were submitted as the unit
/// has files, whatever the number of cycles and restarts it took.
pub proof fn lemma_one_transfer_for_each_file(
    files: Seq<TaccSyncFileView>,
    cycles: Seq<Seq<GlobusReply>>,
)
    requires
        forall|i: int| 0 <= i < files.len() ==> (#[trigger] files[i]).globus_task_id is None,
        cycles_are_sound(files, cycles),
        forall|i: int|
            0 <= i < files.len() ==> (#[trigger] files_after_all(
                files,
                cycles,
            )[i]).globus_task_id is Some,
    ensures
        transfers_in_all(files, cycles) == files.len(),
{
    lemma_cycles_submit_once(files, cycles);
    lemma_without_task_bounds(files, files.len() as int);
    lemma_without_task_bounds(files_after_all(files, cycles), files.len() as int);
}

/// A unit is done at the end of a cycle only where the cycle took an answer
/// for every file, every file holds a task, and the service reported
/// success for the task of each.
pub proof fn lemma_done_means_all_succeeded(
    files: Seq<TaccSyncFileView>,
    replies: Seq<GlobusReply>,
)
    requires
        cycle_is_sound(files, replies),
        count_finished(updates_of(files, replies)) >= files.len(),
    ensures
        replies.len() == files.len(),
        forall|i: int|
            0 <= i < files.len() ==> {
                &&& (#[trigger] replies[i]) is Task
                &&& files[i].globus_task_id == Some(replies[i]->Task_0.task_id)
                &&& replies[i]->Task_0.status@ == "SUCCEEDED"@
            },
{
    let updates = updates_of(files, replies);
    lemma_count_finished(updates);
    assert forall|i: int| 0 <= i < files.len() implies {
        &&& (#[trigger] replies[i]) is Task
        &&& files[i].globus_task_id == Some(replies[i]->Task_0.task_id)
        &&& replies[i]->Task_0.status@ == "SUCCEEDED"@
    } by {
        assert(updates[i].finished);
        assert(answer_for(files[i], replies[i]) is Ok);
        lemma_finished_means_succeeded(files[i], replies[i]);
    }
}

} // verus!
