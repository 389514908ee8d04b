//! The command lines and batch files through which the tape archive's
//! client is driven.

use crate::ident::{fresh_id, hyphenated, id_text, is_random_id};
use crate::text::{join_path, path_join, texts};
use vstd::prelude::*;

verus! {

/// The arguments that make the archive's client list everything below a
/// directory, one path to a line.
pub open spec fn listing_command(hsi_base_path: Seq<char>) -> Seq<Seq<char>> {
    seq!["-q"@, "ls"@, "-1"@, "-R"@, hsi_base_path]
}

/// The arguments that make the archive's client list everything below
/// `hsi_base_path`. The client writes the listing to its error stream.
pub fn listing_arguments(hsi_base_path: &str) -> (args: Vec<String>)
    ensures
        texts(args@) == listing_command(hsi_base_path@),
{
    let mut args: Vec<String> = Vec::new();
    args.push(String::from_str("-q"));
    args.push(String::from_str("ls"));
    args.push(String::from_str("-1"));
    args.push(String::from_str("-R"));
    args.push(String::from_str(hsi_base_path));
    assert(texts(args@) =~= listing_command(hsi_base_path@));
    args
}

/// The arguments that make the archive's client run the commands of a batch
/// file.
pub open spec fn batch_command(batch_file: Seq<char>) -> Seq<Seq<char>> {
    seq!["-P"@, "in"@, batch_file]
}

/// The arguments that make the archive's client run the commands of the
/// batch file at `batch_file`. The client writes its answer to its output
/// stream.
pub fn batch_arguments(batch_file: &str) -> (args: Vec<String>)
    ensures
        texts(args@) == batch_command(batch_file@),
{
    let mut args: Vec<String> = Vec::new();
    args.push(String::from_str("-P"));
    args.push(String::from_str("in"));
    args.push(String::from_str(batch_file));
    assert(texts(args@) =~= batch_command(batch_file@));
    args
}

/// The path of the batch file with the identifier `id` in the scratch
/// directory.
pub fn batch_file_path(semaphore_dir: &str, id: u128) -> (path: String)
    ensures
        path@ == join_path(semaphore_dir@, hyphenated(id)),
{
    let name = id_text(id);
    path_join(semaphore_dir, name.as_str())
}

/// A path for a new batch file in the scratch directory, named by a fresh
/// random identifier so that two stages never write the same file.
pub fn new_batch_file(semaphore_dir: &str) -> (path: String)
    ensures
        exists|id: u128| is_random_id(id) && path@ == join_path(semaphore_dir@, hyphenated(id)),
{
    let id = fresh_id();
    batch_file_path(semaphore_dir, id)
}

} // verus!
