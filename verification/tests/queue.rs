use tacc_sync::queue::{
    dispose, find_json_files_in_directory, outbox_path, work_unit_file_name, work_unit_path,
    Disposition, Handling, InboxEntry,
};

fn entry(name: &str, is_file: bool) -> InboxEntry {
    InboxEntry { name: name.to_string(), is_file }
}

#[test]
fn pending_records_are_the_json_files() {
    let listing = Some(vec![
        entry("b.json", true),
        entry("notes.txt", true),
        entry("a.json", true),
        entry("dir.json", false),
        entry("c.json.safety", true),
        entry("json", true),
        entry("d.JSON", true),
    ]);
    assert_eq!(
        find_json_files_in_directory("/inbox", &listing),
        vec!["/inbox/b.json".to_string(), "/inbox/a.json".to_string()]
    );
}

#[test]
fn empty_inbox_has_no_pending_record() {
    assert_eq!(find_json_files_in_directory("/inbox", &Some(vec![])), Vec::<String>::new());
}

#[test]
fn unreadable_inbox_has_no_pending_record() {
    assert_eq!(find_json_files_in_directory("/inbox", &None), Vec::<String>::new());
}

#[test]
fn a_name_that_is_only_the_suffix_is_pending() {
    let listing = Some(vec![entry(".json", true)]);
    assert_eq!(find_json_files_in_directory("in", &listing), vec!["in/.json".to_string()]);
}

#[test]
fn outbox_path_keeps_the_file_name() {
    assert_eq!(
        outbox_path("/inbox/8b2c.json", "/outbox"),
        Some("/outbox/8b2c.json".to_string())
    );
    assert_eq!(outbox_path("8b2c.json", "/outbox/"), Some("/outbox/8b2c.json".to_string()));
    assert_eq!(outbox_path("/inbox/8b2c.json", ""), Some("8b2c.json".to_string()));
}

#[test]
fn outbox_path_needs_a_file_name() {
    assert_eq!(outbox_path("/", "/outbox"), None);
    assert_eq!(outbox_path("", "/outbox"), None);
    assert_eq!(outbox_path("/inbox/..", "/outbox"), None);
}

#[test]
fn work_unit_file_name_is_the_hyphenated_identifier() {
    assert_eq!(
        work_unit_file_name(0xa1a2a3a4b1b2c1c2d1d2d3d4d5d6d7d8),
        "a1a2a3a4-b1b2-c1c2-d1d2-d3d4d5d6d7d8.json"
    );
    assert_eq!(work_unit_file_name(0), "00000000-0000-0000-0000-000000000000.json");
    assert_eq!(work_unit_file_name(u128::MAX), "ffffffff-ffff-ffff-ffff-ffffffffffff.json");
    assert_eq!(
        work_unit_file_name(0x0123456789abcdef0123456789abcdef),
        "01234567-89ab-cdef-0123-456789abcdef.json"
    );
}

#[test]
fn work_unit_file_name_spells_the_digits_most_significant_first() {
    let mut id: u128 = 0x9e3779b97f4a7c15f39cc0605cedc834;
    for _ in 0..50 {
        id = id.wrapping_mul(0x2360ed051fc65da44385df649fccf645).wrapping_add(0x5851f42d4c957f2d);
        let digits = format!("{:032x}", id);
        let expected = format!(
            "{}-{}-{}-{}-{}.json",
            &digits[0..8],
            &digits[8..12],
            &digits[12..16],
            &digits[16..20],
            &digits[20..32]
        );
        assert_eq!(work_unit_file_name(id), expected);
    }
}

#[test]
fn work_unit_path_lies_in_the_directory() {
    assert_eq!(
        work_unit_path("/work", 0x0123456789abcdef0123456789abcdef),
        "/work/01234567-89ab-cdef-0123-456789abcdef.json"
    );
}

#[test]
fn a_written_record_is_pending_and_keeps_its_name() {
    let path = work_unit_path("/work", 7);
    let name = work_unit_file_name(7);
    let listing = Some(vec![entry(&name, true)]);
    assert_eq!(find_json_files_in_directory("/work", &listing), vec![path.clone()]);
    assert_eq!(outbox_path(&path, "/next"), Some(work_unit_path("/next", 7)));
}

#[test]
fn malformed_records_are_quarantined() {
    assert_eq!(dispose(Handling::Unreadable), Disposition::Quarantine);
}

#[test]
fn failed_records_are_quarantined() {
    assert_eq!(dispose(Handling::Failed), Disposition::Quarantine);
}

#[test]
fn finished_records_are_forwarded() {
    assert_eq!(dispose(Handling::Done), Disposition::Forward);
}

#[test]
fn waiting_records_stay() {
    assert_eq!(dispose(Handling::Waiting), Disposition::Keep);
}
