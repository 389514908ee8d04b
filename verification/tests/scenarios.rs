use tacc_sync::finisher::process_sync_request;
use tacc_sync::planner::{filter_request_files, metadata_batch, parse_tape_metadata};
use tacc_sync::queue::{
    dispose, find_json_files_in_directory, outbox_path, work_unit_file_name, work_unit_path,
    Disposition, Handling, InboxEntry,
};
use tacc_sync::retriever::{calculate_directory_size, exceeds_quota, retrieval_batch, StagedEntry};
use tacc_sync::tape_order::group_files_by_tape;
use tacc_sync::transfer::{
    next_request, process_file, process_work, rewrite_work_unit, GlobusReply, GlobusRequest,
    GlobusTask, GlobusXferContext, TransferResult, WorkOutcome,
};
use tacc_sync::work_units::generate_work_units;
use tacc_sync::{TaccSyncRequest, TaccSyncWork, Timestamp};

fn request(pattern: &str) -> TaccSyncRequest {
    TaccSyncRequest {
        request_id: 0x5a5a5a5a111122223333444444444444,
        date_created: Timestamp { secs: 1_700_000_000, nanos: 0 },
        source: "/home/projects/icecube".to_string(),
        dest: "/corral/icecube".to_string(),
        pattern: pattern.to_string(),
    }
}

fn context() -> GlobusXferContext {
    GlobusXferContext {
        globus_dest_endpoint: "dest-endpoint".to_string(),
        globus_source_endpoint: "source-endpoint".to_string(),
        hpss_base_path: "/home/projects/icecube".to_string(),
        inbox_dir: "/queue/globus".to_string(),
        semaphore_dir: "/scratch".to_string(),
        tacc_base_path: "/corral/icecube".to_string(),
        transfer_dir: "/staging".to_string(),
    }
}

fn record(path: &str, size: u64, position: &str, tape: &str) -> String {
    format!(
        "FILE\t{}\t{}\t{}\t{}\t{}\t5\t0\t1\t03/01/2021\t11:15:47\t03/01/2021\t11:30:52",
        path, size, size, position, tape
    )
}

/// Plans the request against an archive that holds the given files.
fn plan(sync: &TaccSyncRequest, archive: &[(&str, u64, &str, &str)]) -> Vec<TaccSyncWork> {
    let listing: Vec<String> = archive.iter().map(|entry| entry.0.to_string()).collect();
    let selected = filter_request_files(listing, &sync.pattern).unwrap();
    let mut answer = Vec::new();
    for (path, query) in selected.iter().zip(metadata_batch(&selected)) {
        let entry = archive.iter().find(|entry| entry.0 == path).unwrap();
        answer.push(query);
        answer.push(record(entry.0, entry.1, entry.2, entry.3));
    }
    let mut files = parse_tape_metadata(answer);
    let groups = group_files_by_tape(&mut files);
    generate_work_units(sync, &groups).unwrap()
}

/// One cycle of the transfer stage over a unit, with a service that accepts
/// every transfer and reports `status` for every task.
fn transfer_cycle(unit: &mut TaccSyncWork, status: &str, submitted: &mut u32) -> WorkOutcome {
    let ctx = context();
    let mut updates = Vec::new();
    for i in 0..unit.files.len() {
        let reply = match next_request(&ctx, unit.work_id, &unit.files[i]).unwrap() {
            GlobusRequest::Transfer { source, destination } => {
                assert!(source.starts_with("source-endpoint:/staging/"));
                assert!(destination.starts_with("dest-endpoint:/corral/icecube/"));
                *submitted += 1;
                GlobusReply::Submitted(TransferResult {
                    data_type: "transfer_result".to_string(),
                    code: "Accepted".to_string(),
                    message: "accepted".to_string(),
                    request_id: "r".to_string(),
                    resource: "/transfer".to_string(),
                    submission_id: 1,
                    task_id: unit.work_id ^ (i as u128 + 1),
                })
            }
            GlobusRequest::TaskShow { task_id } => {
                GlobusReply::Task(GlobusTask { task_id, status: status.to_string() })
            }
        };
        updates.push(process_file(&mut unit.files[i], &reply).unwrap());
    }
    process_work(unit, &updates)
}

fn in_flight(units: &[&TaccSyncWork]) -> Vec<Option<TaccSyncWork>> {
    units
        .iter()
        .map(|unit| {
            Some(TaccSyncWork {
                work_id: unit.work_id,
                date_created: unit.date_created,
                tape: unit.tape.clone(),
                size: unit.size,
                request_id: unit.request_id,
                files: unit.files.clone(),
                transfer_id: unit.transfer_id,
            })
        })
        .collect()
}

#[test]
fn single_tape_happy_path() {
    let sync = request("**/2009/**/*.zip");
    let archive = [
        ("/home/projects/icecube/data/2009/unbiased/0101/a.zip", 100, "840+0", "AG084600"),
        ("/home/projects/icecube/data/2009/unbiased/0101/b.zip", 200, "841+0", "AG084600"),
        ("/home/projects/icecube/data/2009/unbiased/0102/c.zip", 400, "839+7", "AG084600"),
        ("/home/projects/icecube/data/2010/unbiased/0101/d.zip", 800, "1+0", "AG084600"),
        ("/home/projects/icecube/data/2009/unbiased/0101", 0, "", ""),
    ];
    let mut units = plan(&sync, &archive);
    assert_eq!(units.len(), 1);
    let unit = &mut units[0];
    assert_eq!(unit.files.len(), 3);
    assert_eq!(unit.size, 700);
    assert_eq!(unit.tape, "AG084600");

    // the record lands in the retriever's inbox and is found there
    let name = work_unit_file_name(unit.work_id);
    let listing = Some(vec![InboxEntry { name, is_file: true }]);
    let pending = find_json_files_in_directory("/queue/hpss", &listing);
    assert_eq!(pending, vec![work_unit_path("/queue/hpss", unit.work_id)]);

    // the retriever stages the unit: the staging directory is empty
    let staged = calculate_directory_size(&vec![]).unwrap();
    assert!(!exceeds_quota(staged, unit.size, 1_000));
    assert_eq!(retrieval_batch(unit, "/staging").len(), 3);
    assert_eq!(dispose(Handling::Done), Disposition::Forward);
    assert_eq!(
        outbox_path(&pending[0], "/queue/globus"),
        Some(work_unit_path("/queue/globus", unit.work_id))
    );

    // while the unit is in flight the request waits
    assert_eq!(process_sync_request(&sync, &in_flight(&[unit])), Disposition::Keep);

    // first cycle of the transferrer: every file is submitted
    let mut submitted = 0;
    let outcome = transfer_cycle(unit, "ACTIVE", &mut submitted);
    assert_eq!(outcome, WorkOutcome { rewrite: true, done: false });
    assert_eq!(submitted, 3);
    assert_eq!(rewrite_work_unit(unit, "/queue/globus").len(), 3);
    assert!(unit.files.iter().all(|f| f.globus_task_id.is_some()));
    assert_eq!(process_sync_request(&sync, &in_flight(&[unit])), Disposition::Keep);

    // second cycle: every transfer has succeeded
    let outcome = transfer_cycle(unit, "SUCCEEDED", &mut submitted);
    assert_eq!(outcome, WorkOutcome { rewrite: false, done: true });
    assert_eq!(submitted, 3);

    // the reaper frees the staging space; nothing of the request is in flight
    assert_eq!(calculate_directory_size(&vec![]), Some(0));
    assert_eq!(process_sync_request(&sync, &vec![]), Disposition::Forward);
}

#[test]
fn multi_tape_fan_out() {
    let sync = request("**/*.zip");
    let archive = [
        ("/home/projects/icecube/data/a.zip", 1, "4+0", "AU031900"),
        ("/home/projects/icecube/data/b.zip", 2, "2+0", "AU031800"),
        ("/home/projects/icecube/data/c.zip", 4, "1+9", "AU031900"),
        ("/home/projects/icecube/data/d.zip", 8, "1+0", "AU031800"),
        ("/home/projects/icecube/data/e.zip", 16, "1+3", "AU031900"),
    ];
    let units = plan(&sync, &archive);
    assert_eq!(units.len(), 2);
    assert_eq!(units[0].tape, "AU031800");
    assert_eq!(units[0].files.len(), 2);
    assert_eq!(units[0].size, 10);
    assert_eq!(units[1].tape, "AU031900");
    assert_eq!(units[1].files.len(), 3);
    assert_eq!(units[1].size, 21);

    // the request waits until both units have been reaped
    let other = TaccSyncWork {
        work_id: 77,
        date_created: Timestamp { secs: 0, nanos: 0 },
        tape: "AG084600".to_string(),
        size: 0,
        request_id: 78,
        files: vec![],
        transfer_id: None,
    };
    let both = in_flight(&[&units[0], &other, &units[1]]);
    assert_eq!(process_sync_request(&sync, &both), Disposition::Keep);
    let second_only = in_flight(&[&other, &units[1]]);
    assert_eq!(process_sync_request(&sync, &second_only), Disposition::Keep);
    let none = in_flight(&[&other]);
    assert_eq!(process_sync_request(&sync, &none), Disposition::Forward);
}

#[test]
fn a_unit_that_does_not_fit_holds_back_the_units_behind_it() {
    let quota = 100;
    let staged = calculate_directory_size(&vec![StagedEntry { is_file: true, size: Some(80) }]);
    let inbox = [50u64, 10, 5];
    let mut admitted = Vec::new();
    for size in inbox {
        if exceeds_quota(staged.unwrap(), size, quota) {
            break;
        }
        admitted.push(size);
    }
    assert_eq!(admitted, Vec::<u64>::new());
}
