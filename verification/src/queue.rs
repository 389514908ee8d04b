//! The directory queues between stages: which entries of an inbox are
//! pending, where a record goes next, and under which path it lands.

use crate::ident::{hyphenated, id_text, lemma_hyphenated_chars};
use crate::text::{append, base_name, ends_with, file_name_of, join_path, path_join, texts};
use vstd::prelude::*;

verus! {

/// One entry of a directory listing.
#[derive(Debug, PartialEq, Eq)]
pub struct InboxEntry {
    /// the name of the entry within its directory
    pub name: String,
    /// whether the entry is a regular file
    pub is_file: bool,
}

/// Whether a name marks a record of the queue: it ends in `.json`.
pub open spec fn is_json_name(name: Seq<char>) -> bool {
    ".json"@.is_suffix_of(name)
}

/// Whether an entry of a listing is a pending record.
pub open spec fn is_pending(entry: InboxEntry) -> bool {
    entry.is_file && is_json_name(entry.name@)
}

/// The paths of the pending records among the first `n` entries of a listing
/// of `dir`, in the order of the listing.
pub open spec fn pending_paths(dir: Seq<char>, entries: Seq<InboxEntry>, n: int) -> Seq<Seq<char>>
    decreases n,
{
    if n <= 0 {
        Seq::empty()
    } else if is_pending(entries[n - 1]) {
        pending_paths(dir, entries, n - 1).push(join_path(dir, entries[n - 1].name@))
    } else {
        pending_paths(dir, entries, n - 1)
    }
}

/// The pending records of an inbox: the regular files of the listing whose
/// names end in `.json`, each under its path within `dir_path`. A directory
/// that could not be listed, given as `None`, has no pending record.
pub fn find_json_files_in_directory(
    dir_path: &str,
    listing: &Option<Vec<InboxEntry>>,
) -> (found: Vec<String>)
    ensures
        texts(found@) == match listing {
            Some(entries) => pending_paths(dir_path@, entries@, entries@.len() as int),
            None => Seq::empty(),
        },
{
    let mut found: Vec<String> = Vec::new();
    match listing {
        None => {
            assert(texts(found@) =~= Seq::empty());
        },
        Some(entries) => {
            let mut i: usize = 0;
            assert(texts(found@) =~= pending_paths(dir_path@, entries@, 0));
            while i < entries.len()
                invariant
                    0 <= i <= entries.len(),
                    texts(found@) == pending_paths(dir_path@, entries@, i as int),
                decreases entries.len() - i,
            {
                let entry = &entries[i];
                if entry.is_file && ends_with(entry.name.as_str(), ".json") {
                    let path = path_join(dir_path, entry.name.as_str());
                    assert(texts(found@.push(path)) =~= texts(found@).push(path@));
                    found.push(path);
                }
                i += 1;
            }
        },
    }
    found
}

/// Where a record lands when it is forwarded to `dest_dir`: under its own
/// file name. A path without a file name cannot be forwarded.
pub open spec fn forward_path(file_path: Seq<char>, dest_dir: Seq<char>) -> Option<Seq<char>> {
    match base_name(file_path) {
        Some(name) => Some(join_path(dest_dir, name)),
        None => None,
    }
}

/// The path under which the record at `file_path` lands in `dest_dir`.
pub fn outbox_path(file_path: &str, dest_dir: &str) -> (dest: Option<String>)
    ensures
        match (dest, forward_path(file_path@, dest_dir@)) {
            (Some(path), Some(expected)) => path@ == expected,
            (None, None) => true,
            _ => false,
        },
{
    match file_name_of(file_path) {
        Some(name) => Some(path_join(dest_dir, name.as_str())),
        None => None,
    }
}

/// The file name of the record of a work unit: the text of its identifier
/// and `.json`.
pub open spec fn record_name(work_id: u128) -> Seq<char> {
    hyphenated(work_id) + ".json"@
}

/// The file name under which the record of a work unit is kept.
pub fn work_unit_file_name(work_id: u128) -> (name: String)
    ensures
        name@ == record_name(work_id),
{
    let id = id_text(work_id);
    append(id.as_str(), ".json")
}

/// The path of the record of a work unit within the directory `dir`.
pub fn work_unit_path(dir: &str, work_id: u128) -> (path: String)
    ensures
        path@ == join_path(dir@, record_name(work_id)),
{
    let name = work_unit_file_name(work_id);
    path_join(dir, name.as_str())
}

/// The record of a work unit keeps its name on its way through the stages:
/// in whatever directory it lies, it is a pending record there once it is a
/// regular file, and forwarding it puts it under the same name in the next
/// directory.
pub proof fn lemma_record_keeps_its_name(dir: Seq<char>, dest_dir: Seq<char>, work_id: u128)
    ensures
        is_json_name(record_name(work_id)),
        base_name(join_path(dir, record_name(work_id))) == Some(record_name(work_id)),
        forward_path(join_path(dir, record_name(work_id)), dest_dir) == Some(
            join_path(dest_dir, record_name(work_id)),
        ),
{
    let name = record_name(work_id);
    let id = hyphenated(work_id);
    reveal_strlit(".json");
    lemma_hyphenated_chars(work_id);
    assert(name.len() == 41);
    assert(name.subrange(name.len() - 5, name.len() as int) =~= ".json"@);
    assert(!name.contains('/')) by {
        if name.contains('/') {
            let k = choose|k: int| 0 <= k < name.len() && name[k] == '/';
            if k < 36 {
                assert(name[k] == id[k]);
                assert(id.contains('/'));
            }
        }
    }
    crate::text::lemma_base_name_of_join(dir, name);
}

/// Forwarding keeps the file name of any record: what lands in the next
/// directory has the final component that the record had before.
pub proof fn lemma_forward_keeps_name(file_path: Seq<char>, dest_dir: Seq<char>)
    requires
        forward_path(file_path, dest_dir) is Some,
    ensures
        base_name(forward_path(file_path, dest_dir)->0) == base_name(file_path),
{
    crate::text::lemma_base_name_is_simple(file_path);
    crate::text::lemma_base_name_of_join(dest_dir, base_name(file_path)->0);
}

/// How the handling of one inbox entry ended.
#[derive(Clone, Copy, Debug, PartialEq, Eq, Structural)]
pub enum Handling {
    /// the entry could not be read as a record
    Unreadable,
    /// the record was read and its processing failed
    Failed,
    /// the record was processed and is ready for the next stage
    Done,
    /// the record was processed and has to be looked at again
    Waiting,
}

/// Where an inbox entry goes after it was handled.
#[derive(Clone, Copy, Debug, PartialEq, Eq, Structural)]
pub enum Disposition {
    /// move it to the stage's outbox
    Forward,
    /// move it to the stage's quarantine directory
    Quarantine,
    /// leave it in the inbox for the next cycle
    Keep,
}

/// The rule of every stage: what cannot be read or processed is quarantined,
/// what is done is forwarded, and what waits stays where it is.
pub open spec fn disposition_of(handling: Handling) -> Disposition {
    match handling {
        Handling::Unreadable => Disposition::Quarantine,
        Handling::Failed => Disposition::Quarantine,
        Handling::Done => Disposition::Forward,
        Handling::Waiting => Disposition::Keep,
    }
}

/// Where an inbox entry goes after it was handled.
pub fn dispose(handling: Handling) -> (d: Disposition)
    ensures
        d == disposition_of(handling),
{
    match handling {
        Handling::Unreadable => Disposition::Quarantine,
        Handling::Failed => Disposition::Quarantine,
        Handling::Done => Disposition::Forward,
        Handling::Waiting => Disposition::Keep,
    }
}

} // verus!
