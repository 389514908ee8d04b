//! The bookkeeping of network transfers.
//!
//! A work unit stays in the transfer stage until every one of its files has
//! been handed to the transfer service and the service reports success for
//! each. The stage asks the service one question for each file and cycle:
//! to start a transfer where the file has no task yet, to report on the task
//! where it has one. This module says which question to ask, what an answer
//! means, and what becomes of the unit at the end of a cycle.

use crate::ident::{hyphenated, id_text};
use crate::model::{TaccSyncFile, TaccSyncFileView, TaccSyncWork};
use crate::queue::{record_name, work_unit_path};
use crate::text::{
    append, chars_of, ends_with, join_path, path_join, qualified, same_text, starts_with,
    text_of, texts,
};
use vstd::prelude::*;

verus! {

/// The settings of the transfer stage.
#[derive(Debug, PartialEq, Eq)]
pub struct GlobusXferContext {
    /// the endpoint that files are sent to
    pub globus_dest_endpoint: String,
    /// the endpoint that files are sent from
    pub globus_source_endpoint: String,
    /// the directory of the archive under which every file lives
    pub hpss_base_path: String,
    /// the inbox of the transfer stage
    pub inbox_dir: String,
    /// the scratch directory for batch files
    pub semaphore_dir: String,
    /// the directory at the destination that stands for `hpss_base_path`
    pub tacc_base_path: String,
    /// the staging directory
    pub transfer_dir: String,
}

/// What the transfer service reports of a task.
#[derive(Debug, PartialEq, Eq)]
pub struct GlobusTask {
    /// the task that the report is about
    pub task_id: u128,
    /// one word on the progress of the task: `ACTIVE`, `INACTIVE`,
    /// `SUCCEEDED`, `FAILED`
    pub status: String,
}

/// What the transfer service answers when a transfer is submitted.
#[derive(Debug, PartialEq, Eq)]
pub struct TransferResult {
    pub data_type: String,
    /// `Accepted` where the service took the transfer
    pub code: String,
    pub message: String,
    pub request_id: String,
    pub resource: String,
    pub submission_id: u128,
    /// the task that carries out the transfer
    pub task_id: u128,
}

/// What one cycle did for one file.
#[derive(Clone, Copy, Debug, PartialEq, Eq, Structural)]
pub struct TransferUpdate {
    /// the service reports that the file has arrived
    pub finished: bool,
    /// a transfer was submitted and its task was noted in the file
    pub updated: bool,
}

/// Why the transfer of a work unit failed.
#[derive(Clone, Copy, Debug, PartialEq, Eq, Structural)]
pub enum TransferError {
    /// the file does not live under the archive's base directory
    OutsideBasePath,
    /// the service gave no answer that could be read
    NoAnswer,
    /// the service answered another question than the one asked
    UnexpectedAnswer,
    /// the service did not accept the transfer
    NotAccepted,
    /// the service reported on another task than the one asked about
    WrongTask,
    /// the task failed, or its status is not known to the pipeline
    TaskFailed,
}

/// A question for the transfer service.
#[derive(Debug, PartialEq, Eq)]
pub enum GlobusRequest {
    /// start a transfer from `source` to `destination`
    Transfer { source: String, destination: String },
    /// report on the task `task_id`
    TaskShow { task_id: u128 },
}

/// The mathematical value of a [`GlobusRequest`].
pub enum GlobusRequestView {
    Transfer { source: Seq<char>, destination: Seq<char> },
    TaskShow { task_id: u128 },
}

impl View for GlobusRequest {
    type V = GlobusRequestView;

    open spec fn view(&self) -> GlobusRequestView {
        match self {
            GlobusRequest::Transfer { source, destination } => GlobusRequestView::Transfer {
                source: source@,
                destination: destination@,
            },
            GlobusRequest::TaskShow { task_id } => GlobusRequestView::TaskShow {
                task_id: *task_id,
            },
        }
    }
}

/// An answer of the transfer service.
#[derive(Debug, PartialEq, Eq)]
pub enum GlobusReply {
    /// the answer to a submitted transfer
    Submitted(TransferResult),
    /// the report on a task
    Task(GlobusTask),
    /// the service could not be asked, or its answer could not be read
    Unreadable,
}

/// The stage that a report puts a task in.
#[derive(Clone, Copy, Debug, PartialEq, Eq, Structural)]
pub enum TaskState {
    /// the transfer is under way or suspended; ask again later
    Waiting,
    /// the file has arrived
    Succeeded,
    /// the transfer failed for good
    Failed,
}

/// The stage that a status word stands for: `ACTIVE` and `INACTIVE` wait,
/// `SUCCEEDED` has succeeded, and every other word has failed.
pub open spec fn task_state(status: Seq<char>) -> TaskState {
    if status == "ACTIVE"@ || status == "INACTIVE"@ {
        TaskState::Waiting
    } else if status == "SUCCEEDED"@ {
        TaskState::Succeeded
    } else {
        TaskState::Failed
    }
}

/// The stage that a status word stands for.
pub fn classify_status(status: &str) -> (state: TaskState)
    ensures
        state == task_state(status@),
{
    if same_text(status, "ACTIVE") || same_text(status, "INACTIVE") {
        TaskState::Waiting
    } else if same_text(status, "SUCCEEDED") {
        TaskState::Succeeded
    } else {
        TaskState::Failed
    }
}

/// The directory in which the files of a work unit are staged.
pub open spec fn staging_dir_of(transfer_dir: Seq<char>, work_id: u128) -> Seq<char> {
    join_path(transfer_dir, hyphenated(work_id))
}

/// The directory in which the files of a work unit are staged: the one
/// named by the unit's identifier within the staging directory.
pub fn staging_dir(transfer_dir: &str, work_id: u128) -> (dir: String)
    ensures
        dir@ == staging_dir_of(transfer_dir@, work_id),
{
    let id = id_text(work_id);
    path_join(transfer_dir, id.as_str())
}

/// The path under which a file of a work unit is staged.
pub open spec fn staged_path_of(
    transfer_dir: Seq<char>,
    work_id: u128,
    file_name: Seq<char>,
) -> Seq<char> {
    join_path(staging_dir_of(transfer_dir, work_id), file_name)
}

/// The path under which a file of a work unit is staged.
pub fn staged_path(transfer_dir: &str, work_id: u128, file_name: &str) -> (path: String)
    ensures
        path@ == staged_path_of(transfer_dir@, work_id, file_name@),
{
    let dir = staging_dir(transfer_dir, work_id);
    path_join(dir.as_str(), file_name)
}

/// What is left of an archive path once the base directory and the
/// separator behind it are taken off.
pub open spec fn below_base(hpss_base_path: Seq<char>, hpss_path: Seq<char>) -> Seq<char> {
    if hpss_path.len() > hpss_base_path.len() {
        hpss_path.skip(hpss_base_path.len() as int + 1)
    } else {
        Seq::empty()
    }
}

/// Where a file of the archive goes at the destination: the destination's
/// base directory joined with the file's path below the archive's base
/// directory. A file that does not live under the archive's base directory
/// goes nowhere.
pub open spec fn destination_of(
    hpss_base_path: Seq<char>,
    tacc_base_path: Seq<char>,
    hpss_path: Seq<char>,
) -> Option<Seq<char>> {
    if hpss_base_path.is_prefix_of(hpss_path) {
        Some(join_path(tacc_base_path, below_base(hpss_base_path, hpss_path)))
    } else {
        None
    }
}

/// Where a file of the archive goes at the destination.
pub fn destination_path(
    hpss_base_path: &str,
    tacc_base_path: &str,
    hpss_path: &str,
) -> (dest: Option<String>)
    ensures
        match (dest, destination_of(hpss_base_path@, tacc_base_path@, hpss_path@)) {
            (Some(path), Some(expected)) => path@ == expected,
            (None, None) => true,
            _ => false,
        },
{
    if !starts_with(hpss_path, hpss_base_path) {
        return None;
    }
    let base = chars_of(hpss_base_path);
    let path = chars_of(hpss_path);
    let below = if path.len() > base.len() {
        let rest = text_of(&path, base.len() + 1, path.len());
        assert(rest@ =~= hpss_path@.skip(hpss_base_path@.len() as int + 1));
        rest
    } else {
        String::new()
    };
    Some(path_join(tacc_base_path, below.as_str()))
}

/// The question to ask of the service for a file: to report on the file's
/// task where it has one, else to start a transfer from the staged copy at
/// the source endpoint to the file's place at the destination endpoint. A
/// file without a task that does not live under the archive's base
/// directory cannot be transferred.
pub open spec fn request_for(
    context: GlobusXferContext,
    work_id: u128,
    file: TaccSyncFileView,
) -> Result<GlobusRequestView, TransferError> {
    match file.globus_task_id {
        Some(task_id) => Ok(GlobusRequestView::TaskShow { task_id }),
        None => match destination_of(
            context.hpss_base_path@,
            context.tacc_base_path@,
            file.hpss_path,
        ) {
            Some(dest) => Ok(
                GlobusRequestView::Transfer {
                    source: qualified(
                        context.globus_source_endpoint@,
                        staged_path_of(context.transfer_dir@, work_id, file.file_name),
                    ),
                    destination: qualified(context.globus_dest_endpoint@, dest),
                },
            ),
            None => Err(TransferError::OutsideBasePath),
        },
    }
}

/// A path under the heading of an endpoint.
fn qualify(endpoint: &str, path: &str) -> (r: String)
    ensures
        r@ == qualified(endpoint@, path@),
{
    proof {
        reveal_strlit(":");
        assert(":"@ =~= seq![':']);
    }
    let head = append(endpoint, ":");
    append(head.as_str(), path)
}

/// The question to ask of the service for a file of the work unit
/// `work_id`.
pub fn next_request(
    context: &GlobusXferContext,
    work_id: u128,
    file: &TaccSyncFile,
) -> (r: Result<GlobusRequest, TransferError>)
    ensures
        match (r, request_for(*context, work_id, file@)) {
            (Ok(request), Ok(expected)) => request@ == expected,
            (Err(e), Err(expected)) => e == expected,
            _ => false,
        },
{
    match file.globus_task_id {
        Some(task_id) => Ok(GlobusRequest::TaskShow { task_id }),
        None => {
            let dest = match destination_path(
                context.hpss_base_path.as_str(),
                context.tacc_base_path.as_str(),
                file.hpss_path.as_str(),
            ) {
                Some(dest) => dest,
                None => {
                    return Err(TransferError::OutsideBasePath);
                },
            };
            let staged = staged_path(
                context.transfer_dir.as_str(),
                work_id,
                file.file_name.as_str(),
            );
            Ok(
                GlobusRequest::Transfer {
                    source: qualify(context.globus_source_endpoint.as_str(), staged.as_str()),
                    destination: qualify(context.globus_dest_endpoint.as_str(), dest.as_str()),
                },
            )
        },
    }
}

/// The arguments with which the service's command-line client is run for a
/// question.
pub open spec fn command_for(request: GlobusRequestView) -> Seq<Seq<char>> {
    match request {
        GlobusRequestView::Transfer { source, destination } => seq![
            "transfer"@,
            "--sync-level"@,
            "mtime"@,
            "--preserve-mtime"@,
            "--verify-checksum"@,
            "--format"@,
            "json"@,
            source,
            destination,
        ],
        GlobusRequestView::TaskShow { task_id } => seq![
            "task"@,
            "show"@,
            "--format"@,
            "json"@,
            hyphenated(task_id),
        ],
    }
}

/// The arguments with which the service's command-line client is run for a
/// question.
pub fn globus_arguments(request: &GlobusRequest) -> (args: Vec<String>)
    ensures
        texts(args@) == command_for(request@),
{
    let mut args: Vec<String> = Vec::new();
    match request {
        GlobusRequest::Transfer { source, destination } => {
            args.push(String::from_str("transfer"));
            args.push(String::from_str("--sync-level"));
            args.push(String::from_str("mtime"));
            args.push(String::from_str("--preserve-mtime"));
            args.push(String::from_str("--verify-checksum"));
            args.push(String::from_str("--format"));
            args.push(String::from_str("json"));
            args.push(source.clone());
            args.push(destination.clone());
        },
        GlobusRequest::TaskShow { task_id } => {
            args.push(String::from_str("task"));
            args.push(String::from_str("show"));
            args.push(String::from_str("--format"));
            args.push(String::from_str("json"));
            args.push(id_text(*task_id));
        },
    }
    assert(texts(args@) =~= command_for(request@));
    args
}

/// What an answer means for a file: the file as it stands after the answer
/// and what the cycle did for it, or the reason why the unit fails.
///
/// A file without a task takes the task of an accepted transfer. A file
/// with a task stays as it is: it is finished where the service reports
/// success for that very task, it waits where the task is under way or
/// suspended, and every other report fails the unit.
pub open spec fn answer_for(
    file: TaccSyncFileView,
    reply: GlobusReply,
) -> Result<(TaccSyncFileView, TransferUpdate), TransferError> {
    match (file.globus_task_id, reply) {
        (_, GlobusReply::Unreadable) => Err(TransferError::NoAnswer),
        (None, GlobusReply::Task(_)) => Err(TransferError::UnexpectedAnswer),
        (Some(_), GlobusReply::Submitted(_)) => Err(TransferError::UnexpectedAnswer),
        (None, GlobusReply::Submitted(result)) => if result.code@ == "Accepted"@ {
            Ok(
                (
                    TaccSyncFileView { globus_task_id: Some(result.task_id), ..file },
                    TransferUpdate { finished: false, updated: true },
                ),
            )
        } else {
            Err(TransferError::NotAccepted)
        },
        (Some(task_id), GlobusReply::Task(task)) => if task.task_id != task_id {
            Err(TransferError::WrongTask)
        } else {
            match task_state(task.status@) {
                TaskState::Waiting => Ok(
                    (file, TransferUpdate { finished: false, updated: false }),
                ),
                TaskState::Succeeded => Ok(
                    (file, TransferUpdate { finished: true, updated: false }),
                ),
                TaskState::Failed => Err(TransferError::TaskFailed),
            }
        },
    }
}

/// Takes the service's answer for a file into account. The file changes
/// only where a transfer was accepted: it then holds the transfer's task.
pub fn process_file(
    file: &mut TaccSyncFile,
    reply: &GlobusReply,
) -> (r: Result<TransferUpdate, TransferError>)
    ensures
        match (r, answer_for(old(file)@, *reply)) {
            (Ok(update), Ok((after, expected))) => final(file)@ == after && update == expected,
            (Err(e), Err(expected)) => e == expected && final(file)@ == old(file)@,
            _ => false,
        },
{
    match reply {
        GlobusReply::Unreadable => Err(TransferError::NoAnswer),
        GlobusReply::Submitted(result) => {
            if file.globus_task_id.is_some() {
                return Err(TransferError::UnexpectedAnswer);
            }
            if !same_text(result.code.as_str(), "Accepted") {
                return Err(TransferError::NotAccepted);
            }
            file.globus_task_id = Some(result.task_id);
            Ok(TransferUpdate { finished: false, updated: true })
        },
        GlobusReply::Task(task) => {
            let task_id = match file.globus_task_id {
                Some(task_id) => task_id,
                None => {
                    return Err(TransferError::UnexpectedAnswer);
                },
            };
            if task.task_id != task_id {
                return Err(TransferError::WrongTask);
            }
            match classify_status(task.status.as_str()) {
                TaskState::Waiting => Ok(TransferUpdate { finished: false, updated: false }),
                TaskState::Succeeded => Ok(TransferUpdate { finished: true, updated: false }),
                TaskState::Failed => Err(TransferError::TaskFailed),
            }
        },
    }
}

/// Restart safety: a file that holds a task is never handed to the service
/// as a new transfer. The question for it is a report on that task, and no
/// answer of the service takes the task away or puts another in its place.
pub proof fn lemma_task_is_kept(
    context: GlobusXferContext,
    work_id: u128,
    file: TaccSyncFileView,
    reply: GlobusReply,
)
    requires
        file.globus_task_id is Some,
    ensures
        request_for(context, work_id, file) == Ok::<GlobusRequestView, TransferError>(
            GlobusRequestView::TaskShow { task_id: file.globus_task_id->0 },
        ),
        answer_for(file, reply) matches Ok((after, _)) ==> after == file,
{
}

/// Restart safety: a transfer is submitted for a file once. After an
/// accepted transfer the file holds the transfer's task, so that the next
/// question for it, in this run of the stage or in a later one that reads
/// the unit's record, is a report on that task.
pub proof fn lemma_transfer_is_submitted_once(
    context: GlobusXferContext,
    work_id: u128,
    file: TaccSyncFileView,
    reply: GlobusReply,
)
    requires
        file.globus_task_id is None,
        answer_for(file, reply) is Ok,
    ensures
        ({
            let (after, update) = answer_for(file, reply)->Ok_0;
            &&& reply is Submitted
            &&& update.updated
            &&& !update.finished
            &&& after.globus_task_id == Some(reply->Submitted_0.task_id)
            &&& request_for(context, work_id, after) == Ok::<GlobusRequestView, TransferError>(
                GlobusRequestView::TaskShow { task_id: reply->Submitted_0.task_id },
            )
        }),
{
}

/// A file counts as finished only where it holds a task and the service
/// reports success for that very task.
pub proof fn lemma_finished_means_succeeded(file: TaccSyncFileView, reply: GlobusReply)
    requires
        answer_for(file, reply) matches Ok((_, update)) && update.finished,
    ensures
        reply is Task,
        file.globus_task_id == Some(reply->Task_0.task_id),
        reply->Task_0.status@ == "SUCCEEDED"@,
{
    reveal_strlit("SUCCEEDED");
    reveal_strlit("ACTIVE");
    reveal_strlit("INACTIVE");
}

/// Destination path round-trip: where the destination's base directory is
/// empty or ends in a separator, the place of a file at the destination is the text
/// of that base directory followed by the file's archive path without the
/// archive's base directory and the separator behind it.
pub proof fn lemma_destination_is_base_and_rest(
    hpss_base_path: Seq<char>,
    tacc_base_path: Seq<char>,
    hpss_path: Seq<char>,
)
    requires
        hpss_base_path.is_prefix_of(hpss_path),
        hpss_path.len() > hpss_base_path.len(),
        tacc_base_path.len() == 0 || tacc_base_path.last() == '/',
        !crate::text::is_absolute(hpss_path.skip(hpss_base_path.len() as int + 1)),
    ensures
        destination_of(hpss_base_path, tacc_base_path, hpss_path) == Some(
            tacc_base_path + hpss_path.skip(hpss_base_path.len() as int + 1),
        ),
{
}

/// What becomes of a work unit at the end of a cycle.
#[derive(Clone, Copy, Debug, PartialEq, Eq, Structural)]
pub struct WorkOutcome {
    /// a file took a task in this cycle, so the unit's record has to be
    /// written anew
    pub rewrite: bool,
    /// every file has arrived, so the unit moves on to the next stage
    pub done: bool,
}

/// How many of the updates report a finished file.
pub open spec fn count_finished(updates: Seq<TransferUpdate>) -> nat
    decreases updates.len(),
{
    if updates.len() == 0 {
        0
    } else {
        count_finished(updates.drop_last()) + if updates.last().finished {
            1nat
        } else {
            0nat
        }
    }
}

/// Whether one of the updates reports a file that took a task.
pub open spec fn any_updated(updates: Seq<TransferUpdate>) -> bool {
    exists|i: int| 0 <= i < updates.len() && (#[trigger] updates[i]).updated
}

/// No more updates report a finished file than there are updates, and as
/// many do only where all do.
pub proof fn lemma_count_finished(updates: Seq<TransferUpdate>)
    ensures
        count_finished(updates) <= updates.len(),
        count_finished(updates) == updates.len() <==> forall|i: int|
            0 <= i < updates.len() ==> (#[trigger] updates[i]).finished,
    decreases updates.len(),
{
    if updates.len() > 0 {
        let head = updates.drop_last();
        lemma_count_finished(head);
        if count_finished(updates) == updates.len() {
            assert forall|i: int| 0 <= i < updates.len() implies (#[trigger] updates[i]).finished
            by {
                if i < head.len() {
                    assert(head[i].finished);
                }
            }
        }
        if forall|i: int| 0 <= i < updates.len() ==> (#[trigger] updates[i]).finished {
            assert forall|i: int| 0 <= i < head.len() implies (#[trigger] head[i]).finished by {
                assert(updates[i].finished);
            }
        }
    }
}

/// Sums up a cycle over the files of a work unit. The unit's record is
/// written anew where a file took a task. The unit is done where as many
/// files are finished as the unit holds: with one update for each file,
/// where every file is finished.
pub fn process_work(work: &TaccSyncWork, updates: &Vec<TransferUpdate>) -> (outcome: WorkOutcome)
    ensures
        outcome.rewrite == any_updated(updates@),
        outcome.done == (count_finished(updates@) >= work.files@.len()),
        updates@.len() == work.files@.len() ==> (outcome.done <==> forall|i: int|
            0 <= i < updates@.len() ==> (#[trigger] updates@[i]).finished),
{
    let mut finished_count: usize = 0;
    let mut rewrite = false;
    let mut i: usize = 0;
    assert(updates@.take(0) =~= Seq::<TransferUpdate>::empty());
    while i < updates.len()
        invariant
            0 <= i <= updates@.len(),
            finished_count == count_finished(updates@.take(i as int)),
            finished_count <= i,
            rewrite == any_updated(updates@.take(i as int)),
        decreases updates@.len() - i,
    {
        let ghost upto = updates@.take(i + 1);
        proof {
            assert(upto.drop_last() =~= updates@.take(i as int));
            assert(upto.last() == updates@[i as int]);
            if any_updated(updates@.take(i as int)) {
                let k = choose|k: int|
                    0 <= k < updates@.take(i as int).len() && (#[trigger] updates@.take(
                        i as int,
                    )[k]).updated;
                assert(upto[k].updated);
            }
            if any_updated(upto) && !updates@[i as int].updated {
                let k = choose|k: int| 0 <= k < upto.len() && (#[trigger] upto[k]).updated;
                assert(updates@.take(i as int)[k].updated);
            }
            if updates@[i as int].updated {
                assert(upto[i as int].updated);
            }
        }
        if updates[i].finished {
            finished_count += 1;
        }
        if updates[i].updated {
            rewrite = true;
        }
        i += 1;
    }
    proof {
        assert(updates@.take(updates@.len() as int) =~= updates@);
        lemma_count_finished(updates@);
    }
    WorkOutcome { rewrite, done: finished_count >= work.files.len() }
}

/// One step of writing the record of a work unit anew.
#[derive(Debug, PartialEq, Eq)]
pub enum RewriteStep {
    /// rename the record at `record` to `safety_copy`
    SetAside { record: String, safety_copy: String },
    /// create the record at `record` and write the unit into it
    Write { record: String },
    /// remove the file at `safety_copy`
    Discard { safety_copy: String },
}

/// The mathematical value of a [`RewriteStep`].
pub enum RewriteStepView {
    SetAside { record: Seq<char>, safety_copy: Seq<char> },
    Write { record: Seq<char> },
    Discard { safety_copy: Seq<char> },
}

impl View for RewriteStep {
    type V = RewriteStepView;

    open spec fn view(&self) -> RewriteStepView {
        match self {
            RewriteStep::SetAside { record, safety_copy } => RewriteStepView::SetAside {
                record: record@,
                safety_copy: safety_copy@,
            },
            RewriteStep::Write { record } => RewriteStepView::Write { record: record@ },
            RewriteStep::Discard { safety_copy } => RewriteStepView::Discard {
                safety_copy: safety_copy@,
            },
        }
    }
}

/// The values of a sequence of steps.
pub open spec fn step_views(steps: Seq<RewriteStep>) -> Seq<RewriteStepView> {
    steps.map_values(|s: RewriteStep| s@)
}

/// The name of the safety copy of a record: the record's name and
/// `.safety`.
pub open spec fn safety_copy_of(record: Seq<char>) -> Seq<char> {
    record + ".safety"@
}

/// The steps that write the record at `record` anew, in their order: the
/// old record is set aside as a safety copy, the new record is written in
/// its place, and the safety copy is removed.
pub open spec fn rewrite_steps(record: Seq<char>) -> Seq<RewriteStepView> {
    seq![
        RewriteStepView::SetAside { record, safety_copy: safety_copy_of(record) },
        RewriteStepView::Write { record },
        RewriteStepView::Discard { safety_copy: safety_copy_of(record) },
    ]
}

/// The steps that write the record of a work unit anew in the inbox of the
/// transfer stage.
pub fn rewrite_work_unit(work: &TaccSyncWork, inbox_dir: &str) -> (steps: Vec<RewriteStep>)
    ensures
        step_views(steps@) == rewrite_steps(join_path(inbox_dir@, record_name(work.work_id))),
{
    let record = work_unit_path(inbox_dir, work.work_id);
    let safety_copy = append(record.as_str(), ".safety");
    let mut steps: Vec<RewriteStep> = Vec::new();
    steps.push(RewriteStep::SetAside { record: record.clone(), safety_copy: safety_copy.clone() });
    steps.push(RewriteStep::Write { record });
    steps.push(RewriteStep::Discard { safety_copy });
    assert(step_views(steps@) =~= rewrite_steps(join_path(inbox_dir@, record_name(work.work_id))));
    steps
}

/// A safety copy to put back in place of its record.
#[derive(Debug, PartialEq, Eq)]
pub struct Restore {
    /// the name of the safety copy
    pub safety_copy: String,
    /// the name of the record it is a copy of
    pub record: String,
}

/// Whether a name is that of a safety copy.
pub open spec fn is_safety_copy(name: Seq<char>) -> bool {
    ".safety"@.is_suffix_of(name)
}

/// The name of the record that a safety copy belongs to.
pub open spec fn record_of(safety_copy: Seq<char>) -> Seq<char> {
    safety_copy.take(safety_copy.len() - ".safety"@.len())
}

/// Whether a name of a listing is a safety copy whose record is not in the
/// listing.
pub open spec fn is_orphan(names: Seq<Seq<char>>, name: Seq<char>) -> bool {
    is_safety_copy(name) && !names.contains(record_of(name))
}

/// The safety copies among the first `n` names of a listing whose records
/// are missing from the listing, each with the name of its record.
pub open spec fn orphans(names: Seq<Seq<char>>, n: int) -> Seq<(Seq<char>, Seq<char>)>
    decreases n,
{
    if n <= 0 {
        Seq::empty()
    } else if is_orphan(names, names[n - 1]) {
        orphans(names, n - 1).push((names[n - 1], record_of(names[n - 1])))
    } else {
        orphans(names, n - 1)
    }
}

/// The values of a sequence of restores.
pub open spec fn restore_views(restores: Seq<Restore>) -> Seq<(Seq<char>, Seq<char>)> {
    restores.map_values(|r: Restore| (r.safety_copy@, r.record@))
}

/// Whether `name` is among `names`.
fn is_listed(names: &Vec<String>, name: &str) -> (found: bool)
    ensures
        found == texts(names@).contains(name@),
{
    let mut i: usize = 0;
    while i < names.len()
        invariant
            0 <= i <= names@.len(),
            forall|k: int| 0 <= k < i ==> texts(names@)[k] != name@,
        decreases names@.len() - i,
    {
        if same_text(names[i].as_str(), name) {
            assert(texts(names@)[i as int] == name@);
            return true;
        }
        i += 1;
    }
    false
}

/// What to put back after a stop in the middle of a rewrite: every safety
/// copy of the inbox whose record is missing goes back under the record's
/// name. `names` are the names of the inbox's entries.
pub fn plan_safety_sweep(names: &Vec<String>) -> (restores: Vec<Restore>)
    ensures
        restore_views(restores@) == orphans(texts(names@), names@.len() as int),
{
    let mut restores: Vec<Restore> = Vec::new();
    let mut i: usize = 0;
    assert(restore_views(restores@) =~= orphans(texts(names@), 0));
    while i < names.len()
        invariant
            0 <= i <= names@.len(),
            restore_views(restores@) == orphans(texts(names@), i as int),
        decreases names@.len() - i,
    {
        let name = names[i].as_str();
        assert(texts(names@)[i as int] == name@);
        if ends_with(name, ".safety") {
            proof {
                reveal_strlit(".safety");
            }
            let chars = chars_of(name);
            let record = text_of(&chars, 0, chars.len() - 7);
            assert(record@ =~= record_of(name@));
            if !is_listed(names, record.as_str()) {
                let restore = Restore { safety_copy: names[i].clone(), record };
                assert(restore_views(restores@.push(restore)) =~= restore_views(restores@).push(
                    (restore.safety_copy@, restore.record@),
                ));
                restores.push(restore);
            }
        }
        i += 1;
    }
    restores
}

} // verus!
