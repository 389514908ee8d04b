//! Retiring a request once all work planned for it has left the pipeline.
//!
//! The stage looks at every record in the directories that hold work in
//! flight. It cannot look at them all at once, and other stages move records
//! while it looks. So it decides only where it is sure: a record that cannot
//! be read might be work of the request, and keeps the request waiting.

use crate::model::{TaccSyncRequest, TaccSyncWork};
use crate::queue::Disposition;
use crate::text::texts;
use vstd::prelude::*;

verus! {

/// Where a work unit is on its way through the pipeline.
#[derive(Clone, Copy, Debug, PartialEq, Eq, Structural)]
pub enum Place {
    /// in the inbox of the stage that reads from tape
    Staging,
    /// in the inbox of the stage that transfers
    Transfer,
    /// in the inbox of the stage that frees the staging space
    Reaping,
    /// out of the directories of work in flight: finished or quarantined
    Gone,
}

/// How far along the pipeline a place is.
pub open spec fn rank(place: Place) -> int {
    match place {
        Place::Staging => 0,
        Place::Transfer => 1,
        Place::Reaping => 2,
        Place::Gone => 3,
    }
}

/// The directories of work in flight in the order in which the records pass
/// them. The stage looks through them in this order.
pub fn scan_order(hpss_dir: &str, globus_dir: &str, reaper_dir: &str) -> (dirs: Vec<String>)
    ensures
        texts(dirs@) == seq![hpss_dir@, globus_dir@, reaper_dir@],
{
    let mut dirs: Vec<String> = Vec::new();
    dirs.push(String::from_str(hpss_dir));
    dirs.push(String::from_str(globus_dir));
    dirs.push(String::from_str(reaper_dir));
    assert(texts(dirs@) =~= seq![hpss_dir@, globus_dir@, reaper_dir@]);
    dirs
}

/// Looking through the directories in the order of the pipeline misses no
/// work. A work unit only moves forward, and each move takes it from one
/// directory to the next in a single step. So a unit that was found in none
/// of the three directories, each at the time when that directory was looked
/// through, has left them all by the time the last one was looked through:
/// it did not slip from a directory not yet seen into one already seen.
pub proof fn lemma_scan_misses_no_work(at_first: Place, at_second: Place, at_third: Place)
    requires
        rank(at_first) <= rank(at_second) <= rank(at_third),
        at_first != Place::Staging,
        at_second != Place::Transfer,
        at_third != Place::Reaping,
    ensures
        at_third == Place::Gone,
{
}

/// Whether what was seen of one record keeps the request `request_id`
/// waiting: a record that could not be read, given as `None`, does, and so
/// does a work unit planned for the request.
pub open spec fn keeps_waiting(request_id: u128, seen: Option<TaccSyncWork>) -> bool {
    match seen {
        None => true,
        Some(work) => work.request_id == request_id,
    }
}

/// Whether a request may be retired: nothing that was seen keeps it
/// waiting.
pub open spec fn may_retire(request_id: u128, in_flight: Seq<Option<TaccSyncWork>>) -> bool {
    forall|i: int| 0 <= i < in_flight.len() ==> !keeps_waiting(request_id, #[trigger] in_flight[i])
}

/// Decides what becomes of a request, given what was seen of each record in
/// the directories of work in flight: a work unit, or `None` where the
/// record could not be read. The request is forwarded to the finished
/// requests where every record was read and none is work of the request.
/// In every other case it keeps its place for the next cycle.
pub fn process_sync_request(
    request: &TaccSyncRequest,
    in_flight: &Vec<Option<TaccSyncWork>>,
) -> (d: Disposition)
    ensures
        d == if may_retire(request.request_id, in_flight@) {
            Disposition::Forward
        } else {
            Disposition::Keep
        },
{
    let mut i: usize = 0;
    while i < in_flight.len()
        invariant
            0 <= i <= in_flight@.len(),
            forall|k: int|
                0 <= k < i ==> !keeps_waiting(request.request_id, #[trigger] in_flight@[k]),
        decreases in_flight@.len() - i,
    {
        match &in_flight[i] {
            None => {
                assert(keeps_waiting(request.request_id, in_flight@[i as int]));
                return Disposition::Keep;
            },
            Some(work) => {
                if work.request_id == request.request_id {
                    assert(keeps_waiting(request.request_id, in_flight@[i as int]));
                    return Disposition::Keep;
                }
            },
        }
        i += 1;
    }
    Disposition::Forward
}

} // verus!
