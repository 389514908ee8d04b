use tacc_sync::finisher::{process_sync_request, scan_order};
use tacc_sync::queue::Disposition;
use tacc_sync::{TaccSyncRequest, TaccSyncWork, Timestamp};

fn request(request_id: u128) -> TaccSyncRequest {
    TaccSyncRequest {
        request_id,
        date_created: Timestamp { secs: 1_700_000_000, nanos: 0 },
        source: "/home/projects/icecube".to_string(),
        dest: "/data".to_string(),
        pattern: "**/2009/**/*.zip".to_string(),
    }
}

fn work(work_id: u128, request_id: u128) -> Option<TaccSyncWork> {
    Some(TaccSyncWork {
        work_id,
        date_created: Timestamp { secs: 1_700_000_000, nanos: 0 },
        tape: "AG084600".to_string(),
        size: 0,
        request_id,
        files: vec![],
        transfer_id: None,
    })
}

#[test]
fn the_scan_follows_the_pipeline() {
    assert_eq!(
        scan_order("/queue/hpss", "/queue/globus", "/queue/reaper"),
        vec!["/queue/hpss".to_string(), "/queue/globus".to_string(), "/queue/reaper".to_string()]
    );
}

#[test]
fn a_request_without_work_in_flight_is_retired() {
    assert_eq!(process_sync_request(&request(1), &vec![]), Disposition::Forward);
}

#[test]
fn a_request_with_only_foreign_work_in_flight_is_retired() {
    let seen = vec![work(10, 2), work(11, 3), work(12, 2)];
    assert_eq!(process_sync_request(&request(1), &seen), Disposition::Forward);
}

#[test]
fn a_request_with_work_in_flight_waits() {
    for place in 0..3 {
        let mut seen = vec![work(10, 2), work(11, 3), work(12, 2)];
        seen[place] = work(13, 1);
        assert_eq!(process_sync_request(&request(1), &seen), Disposition::Keep, "{}", place);
    }
}

#[test]
fn a_request_waits_until_both_units_are_reaped() {
    let both = vec![work(10, 1), work(11, 1)];
    assert_eq!(process_sync_request(&request(1), &both), Disposition::Keep);
    let one = vec![work(11, 1)];
    assert_eq!(process_sync_request(&request(1), &one), Disposition::Keep);
    assert_eq!(process_sync_request(&request(1), &vec![]), Disposition::Forward);
}

#[test]
fn concurrent_finisher_scan() {
    let seen = vec![work(10, 2), None, work(12, 3)];
    assert_eq!(process_sync_request(&request(1), &seen), Disposition::Keep);
    assert_eq!(process_sync_request(&request(1), &vec![None]), Disposition::Keep);
}

#[test]
fn a_quarantined_unit_does_not_keep_its_request() {
    let elsewhere = vec![work(10, 2)];
    assert_eq!(process_sync_request(&request(1), &elsewhere), Disposition::Forward);
    let other_unit_left = vec![work(10, 2), work(14, 1)];
    assert_eq!(process_sync_request(&request(1), &other_unit_left), Disposition::Keep);
}
