//! Coordination logic for a tape-to-network synchronisation pipeline.
//!
//! Five stages hand JSON records to each other through directories. A
//! planner turns each request into one work unit for each tape; a retriever
//! stages the files of a unit from tape, within a quota; a transferrer hands
//! the staged files to a transfer service and follows the transfers; a reaper
//! frees the staging space; and a finisher retires a request once none of its
//! work is left in flight.
//!
//! This library holds what the stages decide and compute. Running the
//! archive's and the transfer service's clients, and touching the file
//! system, is left to the caller, who hands in what it found and carries out
//! what comes back.
//!
//! - [`model`]: the records and their mathematical views
//! - [`text`]: texts, numerals, lines and paths
//! - [`ident`]: identifiers and time stamps
//! - [`config`]: settings
//! - [`queue`]: the directory queues between the stages
//! - [`hsi`]: command lines and batch files for the archive's client
//! - [`planner`], [`tape_order`], [`work_units`]: from a request to its
//!   work units
//! - [`retriever`]: staging under a quota
//! - [`transfer`], [`transfer_cycles`]: the bookkeeping of transfers
//! - [`finisher`]: retiring requests

pub mod config;
pub mod finisher;
pub mod hsi;
pub mod ident;
pub mod model;
pub mod planner;
pub mod queue;
pub mod retriever;
pub mod tape_order;
pub mod text;
pub mod transfer;
pub mod transfer_cycles;
pub mod work_units;

pub use config::boolify;
pub use finisher::process_sync_request;
pub use model::{HpssFile, TaccSyncFile, TaccSyncRequest, TaccSyncWork, Timestamp};
pub use planner::{filter_request_files, parse_tape_metadata, try_parse_tape_metadata};
pub use queue::find_json_files_in_directory;
pub use retriever::calculate_directory_size;
pub use tape_order::group_files_by_tape;
pub use transfer::{
    process_file, process_work, rewrite_work_unit, GlobusTask, GlobusXferContext, TransferResult,
    TransferUpdate,
};
pub use work_units::generate_work_units;
