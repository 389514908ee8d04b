use tacc_sync::transfer::{
    classify_status, destination_path, globus_arguments, next_request, plan_safety_sweep,
    process_file, process_work, rewrite_work_unit, staged_path, staging_dir, GlobusReply,
    GlobusRequest, GlobusTask, GlobusXferContext, Restore, RewriteStep, TaskState, TransferError,
    TransferResult, TransferUpdate, WorkOutcome,
};
use tacc_sync::{TaccSyncFile, TaccSyncWork, Timestamp};

const WORK_ID: u128 = 0x0123456789abcdef0123456789abcdef;
const TASK_ID: u128 = 0xa1a2a3a4b1b2c1c2d1d2d3d4d5d6d7d8;

fn strings(items: &[&str]) -> Vec<String> {
    items.iter().map(|s| s.to_string()).collect()
}

fn context() -> GlobusXferContext {
    GlobusXferContext {
        globus_dest_endpoint: "dest-endpoint".to_string(),
        globus_source_endpoint: "source-endpoint".to_string(),
        hpss_base_path: "/home/projects/icecube".to_string(),
        inbox_dir: "/queue/globus".to_string(),
        semaphore_dir: "/scratch".to_string(),
        tacc_base_path: "/corral/icecube".to_string(),
        transfer_dir: "/staging".to_string(),
    }
}

fn work_file(name: &str, task: Option<u128>) -> TaccSyncFile {
    TaccSyncFile {
        file_name: name.to_string(),
        hpss_path: format!("/home/projects/icecube/data/2009/{}", name),
        size: 10,
        tape_num: 1,
        tape_offset: 0,
        globus_task_id: task,
    }
}

fn work(files: Vec<TaccSyncFile>) -> TaccSyncWork {
    TaccSyncWork {
        work_id: WORK_ID,
        date_created: Timestamp { secs: 1_700_000_000, nanos: 0 },
        tape: "AG084600".to_string(),
        size: files.iter().map(|f| f.size).sum(),
        request_id: 1,
        files,
        transfer_id: None,
    }
}

fn accepted(task_id: u128) -> GlobusReply {
    submitted("Accepted", task_id)
}

fn submitted(code: &str, task_id: u128) -> GlobusReply {
    GlobusReply::Submitted(TransferResult {
        data_type: "transfer_result".to_string(),
        code: code.to_string(),
        message: "The transfer has been accepted and a task has been created and queued for execution".to_string(),
        request_id: "zF1BqYA7p".to_string(),
        resource: "/transfer".to_string(),
        submission_id: 99,
        task_id,
    })
}

fn report(task_id: u128, status: &str) -> GlobusReply {
    GlobusReply::Task(GlobusTask { task_id, status: status.to_string() })
}

#[test]
fn status_words_stand_for_stages() {
    assert_eq!(classify_status("ACTIVE"), TaskState::Waiting);
    assert_eq!(classify_status("INACTIVE"), TaskState::Waiting);
    assert_eq!(classify_status("SUCCEEDED"), TaskState::Succeeded);
    assert_eq!(classify_status("FAILED"), TaskState::Failed);
    assert_eq!(classify_status(""), TaskState::Failed);
    assert_eq!(classify_status("succeeded"), TaskState::Failed);
    assert_eq!(classify_status("PAUSED"), TaskState::Failed);
}

#[test]
fn staging_dir_is_named_by_the_unit() {
    assert_eq!(staging_dir("/staging", WORK_ID), "/staging/01234567-89ab-cdef-0123-456789abcdef");
    assert_eq!(staging_dir("/staging/", WORK_ID), "/staging/01234567-89ab-cdef-0123-456789abcdef");
}

#[test]
fn staged_path_lies_in_the_staging_dir() {
    assert_eq!(
        staged_path("/staging", WORK_ID, "a.zip"),
        "/staging/01234567-89ab-cdef-0123-456789abcdef/a.zip"
    );
}

#[test]
fn destination_replaces_the_base_directory() {
    assert_eq!(
        destination_path("/hpss/base", "/tacc/base", "/hpss/base/data/2009/a.zip"),
        Some("/tacc/base/data/2009/a.zip".to_string())
    );
    assert_eq!(
        destination_path("/hpss/base", "/tacc/base/", "/hpss/base/data/2009/a.zip"),
        Some("/tacc/base/data/2009/a.zip".to_string())
    );
}

#[test]
fn destination_is_base_and_rest_where_the_base_ends_in_a_separator() {
    let base = "/hpss/base";
    let tacc = "/tacc/base/";
    for path in ["/hpss/base/a.zip", "/hpss/base/x/y/z.zip", "/hpss/base/"] {
        let expected = format!("{}{}", tacc, &path[base.len() + 1..]);
        assert_eq!(destination_path(base, tacc, path), Some(expected), "{}", path);
    }
}

#[test]
fn destination_drops_one_character_behind_the_base() {
    assert_eq!(
        destination_path("/hpss/base", "/tacc", "/hpss/basement/a.zip"),
        Some("/tacc/ent/a.zip".to_string())
    );
}

#[test]
fn destination_of_the_base_itself_is_the_destination_base() {
    assert_eq!(destination_path("/hpss/base", "/tacc", "/hpss/base"), Some("/tacc/".to_string()));
    assert_eq!(destination_path("/hpss/base", "/tacc", "/hpss/base/"), Some("/tacc/".to_string()));
}

#[test]
fn destination_outside_the_base_is_none() {
    assert_eq!(destination_path("/hpss/base", "/tacc", "/other/a.zip"), None);
    assert_eq!(destination_path("/hpss/base", "/tacc", "/hpss/bas"), None);
    assert_eq!(destination_path("/hpss/base", "/tacc", ""), None);
}

#[test]
fn a_file_without_task_is_submitted() {
    assert_eq!(
        next_request(&context(), WORK_ID, &work_file("a.zip", None)),
        Ok(GlobusRequest::Transfer {
            source: "source-endpoint:/staging/01234567-89ab-cdef-0123-456789abcdef/a.zip"
                .to_string(),
            destination: "dest-endpoint:/corral/icecube/data/2009/a.zip".to_string(),
        })
    );
}

#[test]
fn a_file_with_task_is_polled() {
    assert_eq!(
        next_request(&context(), WORK_ID, &work_file("a.zip", Some(TASK_ID))),
        Ok(GlobusRequest::TaskShow { task_id: TASK_ID })
    );
}

#[test]
fn a_file_outside_the_base_path_fails_the_unit() {
    let mut file = work_file("a.zip", None);
    file.hpss_path = "/elsewhere/a.zip".to_string();
    assert_eq!(next_request(&context(), WORK_ID, &file), Err(TransferError::OutsideBasePath));
    file.globus_task_id = Some(TASK_ID);
    assert_eq!(
        next_request(&context(), WORK_ID, &file),
        Ok(GlobusRequest::TaskShow { task_id: TASK_ID })
    );
}

#[test]
fn transfer_arguments_follow_the_client() {
    let request = GlobusRequest::Transfer {
        source: "src:/staging/u/a.zip".to_string(),
        destination: "dst:/corral/a.zip".to_string(),
    };
    assert_eq!(
        globus_arguments(&request),
        strings(&[
            "transfer",
            "--sync-level",
            "mtime",
            "--preserve-mtime",
            "--verify-checksum",
            "--format",
            "json",
            "src:/staging/u/a.zip",
            "dst:/corral/a.zip",
        ])
    );
}

#[test]
fn task_show_arguments_follow_the_client() {
    assert_eq!(
        globus_arguments(&GlobusRequest::TaskShow { task_id: TASK_ID }),
        strings(&["task", "show", "--format", "json", "a1a2a3a4-b1b2-c1c2-d1d2-d3d4d5d6d7d8"])
    );
}

#[test]
fn an_accepted_transfer_stamps_the_task() {
    let mut file = work_file("a.zip", None);
    assert_eq!(
        process_file(&mut file, &accepted(TASK_ID)),
        Ok(TransferUpdate { finished: false, updated: true })
    );
    assert_eq!(file, work_file("a.zip", Some(TASK_ID)));
}

#[test]
fn a_transfer_that_is_not_accepted_fails_the_unit() {
    let mut file = work_file("a.zip", None);
    for code in ["Rejected", "", "accepted", "Accepted "] {
        assert_eq!(
            process_file(&mut file, &submitted(code, TASK_ID)),
            Err(TransferError::NotAccepted)
        );
        assert_eq!(file, work_file("a.zip", None));
    }
}

#[test]
fn a_task_under_way_waits() {
    let mut file = work_file("a.zip", Some(TASK_ID));
    for status in ["ACTIVE", "INACTIVE"] {
        assert_eq!(
            process_file(&mut file, &report(TASK_ID, status)),
            Ok(TransferUpdate { finished: false, updated: false })
        );
        assert_eq!(file, work_file("a.zip", Some(TASK_ID)));
    }
}

#[test]
fn a_task_that_succeeded_finishes_the_file() {
    let mut file = work_file("a.zip", Some(TASK_ID));
    assert_eq!(
        process_file(&mut file, &report(TASK_ID, "SUCCEEDED")),
        Ok(TransferUpdate { finished: true, updated: false })
    );
    assert_eq!(file, work_file("a.zip", Some(TASK_ID)));
}

#[test]
fn a_task_that_failed_fails_the_unit() {
    let mut file = work_file("a.zip", Some(TASK_ID));
    for status in ["FAILED", "CANCELED", ""] {
        assert_eq!(
            process_file(&mut file, &report(TASK_ID, status)),
            Err(TransferError::TaskFailed)
        );
        assert_eq!(file, work_file("a.zip", Some(TASK_ID)));
    }
}

#[test]
fn a_report_on_another_task_fails_the_unit() {
    let mut file = work_file("a.zip", Some(TASK_ID));
    assert_eq!(
        process_file(&mut file, &report(TASK_ID + 1, "SUCCEEDED")),
        Err(TransferError::WrongTask)
    );
    assert_eq!(file, work_file("a.zip", Some(TASK_ID)));
}

#[test]
fn an_answer_to_another_question_fails_the_unit() {
    let mut fresh = work_file("a.zip", None);
    assert_eq!(
        process_file(&mut fresh, &report(TASK_ID, "SUCCEEDED")),
        Err(TransferError::UnexpectedAnswer)
    );
    assert_eq!(fresh, work_file("a.zip", None));
    let mut stamped = work_file("a.zip", Some(TASK_ID));
    assert_eq!(
        process_file(&mut stamped, &accepted(TASK_ID + 1)),
        Err(TransferError::UnexpectedAnswer)
    );
    assert_eq!(stamped, work_file("a.zip", Some(TASK_ID)));
}

#[test]
fn no_answer_fails_the_unit() {
    let mut fresh = work_file("a.zip", None);
    assert_eq!(process_file(&mut fresh, &GlobusReply::Unreadable), Err(TransferError::NoAnswer));
    let mut stamped = work_file("a.zip", Some(TASK_ID));
    assert_eq!(process_file(&mut stamped, &GlobusReply::Unreadable), Err(TransferError::NoAnswer));
    assert_eq!(stamped, work_file("a.zip", Some(TASK_ID)));
}

#[test]
fn a_unit_is_done_when_all_files_are_finished() {
    let unit = work(vec![work_file("a.zip", Some(1)), work_file("b.zip", Some(2))]);
    let finished = TransferUpdate { finished: true, updated: false };
    let waiting = TransferUpdate { finished: false, updated: false };
    let stamped = TransferUpdate { finished: false, updated: true };
    assert_eq!(
        process_work(&unit, &vec![finished, finished]),
        WorkOutcome { rewrite: false, done: true }
    );
    assert_eq!(
        process_work(&unit, &vec![finished, waiting]),
        WorkOutcome { rewrite: false, done: false }
    );
    assert_eq!(
        process_work(&unit, &vec![stamped, finished]),
        WorkOutcome { rewrite: true, done: false }
    );
    assert_eq!(
        process_work(&unit, &vec![waiting, stamped]),
        WorkOutcome { rewrite: true, done: false }
    );
    assert_eq!(process_work(&unit, &vec![finished]), WorkOutcome { rewrite: false, done: false });
    assert_eq!(process_work(&unit, &vec![]), WorkOutcome { rewrite: false, done: false });
}

#[test]
fn a_unit_without_files_is_done() {
    assert_eq!(process_work(&work(vec![]), &vec![]), WorkOutcome { rewrite: false, done: true });
}

#[test]
fn rewrite_sets_aside_writes_and_discards() {
    let unit = work(vec![]);
    let record = "/queue/globus/01234567-89ab-cdef-0123-456789abcdef.json".to_string();
    let safety_copy = format!("{}.safety", record);
    assert_eq!(
        rewrite_work_unit(&unit, "/queue/globus"),
        vec![
            RewriteStep::SetAside { record: record.clone(), safety_copy: safety_copy.clone() },
            RewriteStep::Write { record },
            RewriteStep::Discard { safety_copy },
        ]
    );
}

#[test]
fn sweep_restores_safety_copies_without_record() {
    let names = strings(&[
        "a.json",
        "a.json.safety",
        "b.json.safety",
        "c.json",
        "notes.safety",
        ".safety",
        "d.json.safety.tmp",
    ]);
    assert_eq!(
        plan_safety_sweep(&names),
        vec![
            Restore { safety_copy: "b.json.safety".to_string(), record: "b.json".to_string() },
            Restore { safety_copy: "notes.safety".to_string(), record: "notes".to_string() },
            Restore { safety_copy: ".safety".to_string(), record: "".to_string() },
        ]
    );
    assert_eq!(plan_safety_sweep(&vec![]), vec![]);
}

#[test]
fn transferrer_restart() {
    let ctx = context();
    let mut unit = work(vec![
        work_file("a.zip", None),
        work_file("b.zip", None),
        work_file("c.zip", None),
        work_file("d.zip", None),
    ]);
    let mut submitted_transfers = 0;
    let mut updates = Vec::new();
    for i in 0..3 {
        let request = next_request(&ctx, unit.work_id, &unit.files[i]).unwrap();
        assert!(matches!(request, GlobusRequest::Transfer { .. }));
        submitted_transfers += 1;
        updates.push(process_file(&mut unit.files[i], &accepted(100 + i as u128)).unwrap());
    }
    assert_eq!(process_work(&unit, &updates), WorkOutcome { rewrite: true, done: false });
    let record = "01234567-89ab-cdef-0123-456789abcdef.json".to_string();
    let left_behind = vec![format!("{}.safety", record)];
    assert_eq!(
        plan_safety_sweep(&left_behind),
        vec![Restore { safety_copy: left_behind[0].clone(), record }]
    );
    let mut updates = Vec::new();
    for i in 0..4 {
        match next_request(&ctx, unit.work_id, &unit.files[i]).unwrap() {
            GlobusRequest::Transfer { .. } => {
                submitted_transfers += 1;
                updates.push(process_file(&mut unit.files[i], &accepted(100 + i as u128)).unwrap());
            }
            GlobusRequest::TaskShow { task_id } => {
                assert_eq!(task_id, 100 + i as u128);
                updates.push(process_file(&mut unit.files[i], &report(task_id, "ACTIVE")).unwrap());
            }
        }
    }
    assert_eq!(submitted_transfers, 4);
    assert_eq!(process_work(&unit, &updates), WorkOutcome { rewrite: true, done: false });
    let mut updates = Vec::new();
    for i in 0..4 {
        match next_request(&ctx, unit.work_id, &unit.files[i]).unwrap() {
            GlobusRequest::Transfer { .. } => panic!("file {} was submitted again", i),
            GlobusRequest::TaskShow { task_id } => {
                updates.push(process_file(&mut unit.files[i], &report(task_id, "SUCCEEDED")).unwrap());
            }
        }
    }
    assert_eq!(process_work(&unit, &updates), WorkOutcome { rewrite: false, done: true });
}

#[test]
fn globus_failure() {
    let ctx = context();
    let mut unit = work(vec![work_file("a.zip", Some(1)), work_file("b.zip", Some(2))]);
    let request = next_request(&ctx, unit.work_id, &unit.files[0]).unwrap();
    assert_eq!(request, GlobusRequest::TaskShow { task_id: 1 });
    assert_eq!(
        process_file(&mut unit.files[0], &report(1, "FAILED")),
        Err(TransferError::TaskFailed)
    );
    assert_eq!(
        tacc_sync::queue::dispose(tacc_sync::queue::Handling::Failed),
        tacc_sync::queue::Disposition::Quarantine
    );
}
