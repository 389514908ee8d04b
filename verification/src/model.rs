//! The records that travel through the pipeline, and their mathematical
//! views.
//!
//! Identifiers are the 128-bit values of UUIDs. A moment is held as seconds
//! and nanoseconds since the start of 1970, UTC.

use vstd::prelude::*;

verus! {

/// A moment in time: whole seconds since 1970-01-01T00:00:00Z and the
/// nanoseconds past that second.
#[derive(Clone, Copy, Debug, PartialEq, Eq, Structural)]
pub struct Timestamp {
    pub secs: i64,
    pub nanos: u32,
}

/// What the tape archive reports of one file.
#[derive(Debug, PartialEq, Eq)]
pub struct HpssFile {
    /// absolute path of the file in the archive
    pub hpss_path: String,
    /// recorded size of the file in bytes
    pub size: u64,
    /// label of the cartridge that holds the file; `"0"` where unknown
    pub tape: String,
    /// the tape mark before the file
    pub tape_num: u64,
    /// how many bytes past the mark the file starts
    pub tape_offset: u64,
}

/// The mathematical value of an [`HpssFile`].
pub struct HpssFileView {
    pub hpss_path: Seq<char>,
    pub size: u64,
    pub tape: Seq<char>,
    pub tape_num: u64,
    pub tape_offset: u64,
}

impl View for HpssFile {
    type V = HpssFileView;

    open spec fn view(&self) -> HpssFileView {
        HpssFileView {
            hpss_path: self.hpss_path@,
            size: self.size,
            tape: self.tape@,
            tape_num: self.tape_num,
            tape_offset: self.tape_offset,
        }
    }
}

impl Clone for HpssFile {
    fn clone(&self) -> (r: Self)
        ensures
            r == *self,
    {
        HpssFile {
            hpss_path: self.hpss_path.clone(),
            size: self.size,
            tape: self.tape.clone(),
            tape_num: self.tape_num,
            tape_offset: self.tape_offset,
        }
    }
}

/// One file of a work unit.
#[derive(Debug, PartialEq, Eq)]
pub struct TaccSyncFile {
    /// the name of the file without any path information
    pub file_name: String,
    /// absolute path of the file in the archive
    pub hpss_path: String,
    /// recorded size of the file in bytes
    pub size: u64,
    /// the tape mark before the file
    pub tape_num: u64,
    /// how many bytes past the mark the file starts
    pub tape_offset: u64,
    /// the network transfer task that moves this file, once one was submitted
    pub globus_task_id: Option<u128>,
}

/// The mathematical value of a [`TaccSyncFile`].
pub struct TaccSyncFileView {
    pub file_name: Seq<char>,
    pub hpss_path: Seq<char>,
    pub size: u64,
    pub tape_num: u64,
    pub tape_offset: u64,
    pub globus_task_id: Option<u128>,
}

impl View for TaccSyncFile {
    type V = TaccSyncFileView;

    open spec fn view(&self) -> TaccSyncFileView {
        TaccSyncFileView {
            file_name: self.file_name@,
            hpss_path: self.hpss_path@,
            size: self.size,
            tape_num: self.tape_num,
            tape_offset: self.tape_offset,
            globus_task_id: self.globus_task_id,
        }
    }
}

impl Clone for TaccSyncFile {
    fn clone(&self) -> (r: Self)
        ensures
            r == *self,
    {
        TaccSyncFile {
            file_name: self.file_name.clone(),
            hpss_path: self.hpss_path.clone(),
            size: self.size,
            tape_num: self.tape_num,
            tape_offset: self.tape_offset,
            globus_task_id: self.globus_task_id,
        }
    }
}

/// A request to synchronise the files under `source` that match `pattern`.
#[derive(Debug, PartialEq, Eq)]
pub struct TaccSyncRequest {
    /// the identifier of this request
    pub request_id: u128,
    /// when the request was created
    pub date_created: Timestamp,
    pub source: String,
    pub dest: String,
    /// the glob that selects the files
    pub pattern: String,
}

/// The mathematical value of a [`TaccSyncRequest`].
pub struct TaccSyncRequestView {
    pub request_id: u128,
    pub date_created: Timestamp,
    pub source: Seq<char>,
    pub dest: Seq<char>,
    pub pattern: Seq<char>,
}

impl View for TaccSyncRequest {
    type V = TaccSyncRequestView;

    open spec fn view(&self) -> TaccSyncRequestView {
        TaccSyncRequestView {
            request_id: self.request_id,
            date_created: self.date_created,
            source: self.source@,
            dest: self.dest@,
            pattern: self.pattern@,
        }
    }
}

/// The files of one request that live on one tape.
#[derive(Debug, PartialEq, Eq)]
pub struct TaccSyncWork {
    /// the identifier of this work unit
    pub work_id: u128,
    /// when the work unit was created
    pub date_created: Timestamp,
    /// the cartridge label shared by all files of the unit
    pub tape: String,
    /// the total size of the files, in bytes
    pub size: u64,
    /// the request that this work was planned for
    pub request_id: u128,
    /// the files, in the order in which the tape is read
    pub files: Vec<TaccSyncFile>,
    /// reserved for a transfer of the unit as a whole
    pub transfer_id: Option<u128>,
}

/// The mathematical value of a [`TaccSyncWork`].
pub struct TaccSyncWorkView {
    pub work_id: u128,
    pub date_created: Timestamp,
    pub tape: Seq<char>,
    pub size: u64,
    pub request_id: u128,
    pub files: Seq<TaccSyncFileView>,
    pub transfer_id: Option<u128>,
}

/// The values of a sequence of work files.
pub open spec fn file_views(files: Seq<TaccSyncFile>) -> Seq<TaccSyncFileView> {
    files.map_values(|f: TaccSyncFile| f@)
}

impl View for TaccSyncWork {
    type V = TaccSyncWorkView;

    open spec fn view(&self) -> TaccSyncWorkView {
        TaccSyncWorkView {
            work_id: self.work_id,
            date_created: self.date_created,
            tape: self.tape@,
            size: self.size,
            request_id: self.request_id,
            files: file_views(self.files@),
            transfer_id: self.transfer_id,
        }
    }
}

/// The sum of the sizes of a sequence of work files.
pub open spec fn total_size(files: Seq<TaccSyncFileView>) -> nat
    decreases files.len(),
{
    if files.len() == 0 {
        0
    } else {
        total_size(files.drop_last()) + files.last().size as nat
    }
}

impl TaccSyncWorkView {
    /// The recorded size of the unit is the sum of the sizes of its files.
    pub open spec fn size_is_accounted(self) -> bool {
        self.size == total_size(self.files)
    }
}

} // verus!
