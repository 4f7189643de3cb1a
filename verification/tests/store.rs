use allure_runs::listing::{list_projects, list_run_ids, project_summary, sort_project_summaries, DirEntry};
use allure_runs::records::{decode_status_json, encode_status_json, Outcome, RunStatus};
use allure_runs::storage::{
    latest_run_id_content, project_dir, read_latest_run_id, read_run_status, reserve_next_run_id,
    run_dir, runs_dir,
};
use allure_runs::util::{clip, sanitize_name};

#[test]
fn path_layout_matches_conventions() {
    let data = b"/data".to_vec();
    let demo = b"demo".to_vec();
    assert_eq!(project_dir(&data, &demo), b"/data/projects/demo".to_vec());
    assert_eq!(runs_dir(&data, &demo), b"/data/projects/demo/runs".to_vec());
    assert_eq!(run_dir(&data, &demo, 7), b"/data/projects/demo/runs/7".to_vec());
    assert_eq!(run_dir(&data, &demo, 1234), b"/data/projects/demo/runs/1234".to_vec());
}

#[test]
fn fresh_counter_reserves_one() {
    let (id, next) = reserve_next_run_id(&None);
    assert_eq!(id, 1);
    assert_eq!(next, b"2".to_vec());
}

#[test]
fn reservation_sequence_is_gapless() {
    let mut content: Option<Vec<u8>> = None;
    for expected in 1u64..=25 {
        let (id, next) = reserve_next_run_id(&content);
        assert_eq!(id, expected);
        content = Some(next);
    }
}

#[test]
fn corrupt_counter_restarts_at_one() {
    let (id, next) = reserve_next_run_id(&Some(b"garbage".to_vec()));
    assert_eq!(id, 1);
    assert_eq!(next, b"2".to_vec());
    let (id2, _) = reserve_next_run_id(&Some(b"".to_vec()));
    assert_eq!(id2, 1);
    let (id3, _) = reserve_next_run_id(&Some(b"-4".to_vec()));
    assert_eq!(id3, 1);
}

#[test]
fn counter_tolerates_surrounding_whitespace() {
    let (id, next) = reserve_next_run_id(&Some(b"  7 \n".to_vec()));
    assert_eq!(id, 7);
    assert_eq!(next, b"8".to_vec());
}

#[test]
fn latest_pointer_round_trips() {
    let content = latest_run_id_content(41);
    assert_eq!(content, b"41".to_vec());
    assert_eq!(read_latest_run_id(&Some(content)), Some(41));
}

#[test]
fn missing_or_corrupt_pointer_reads_as_absent() {
    assert_eq!(read_latest_run_id(&None), None);
    assert_eq!(read_latest_run_id(&Some(b"not-a-number".to_vec())), None);
    assert_eq!(read_latest_run_id(&Some(b"".to_vec())), None);
}

#[test]
fn status_record_round_trips_success() {
    let st = RunStatus { status: Outcome::Success, error: None };
    let bytes = encode_status_json(&st);
    assert_eq!(bytes, b"{\"status\":\"success\",\"error\":null}".to_vec());
    let back = decode_status_json(&bytes).unwrap();
    assert_eq!(back, st);
}

#[test]
fn status_record_round_trips_failure_with_hostile_text() {
    let err = b"disk \"full\"\\ broke\nline\ttab\x01ctl".to_vec();
    let st = RunStatus { status: Outcome::Failed, error: Some(err.clone()) };
    let bytes = encode_status_json(&st);
    let back = decode_status_json(&bytes).unwrap();
    assert_eq!(back.status, Outcome::Failed);
    assert_eq!(back.error, Some(err));
}

#[test]
fn absent_status_reads_as_no_status() {
    assert!(read_run_status(&None).is_none());
}

#[test]
fn corrupt_status_reads_as_no_status() {
    assert!(read_run_status(&Some(b"{}".to_vec())).is_none());
    assert!(read_run_status(&Some(b"not json".to_vec())).is_none());
    assert!(read_run_status(&Some(b"{\"status\":\"odd\",\"error\":null}".to_vec())).is_none());
}

fn dirs(names: &[(&str, bool)]) -> Vec<DirEntry> {
    names
        .iter()
        .map(|(n, d)| DirEntry { name: n.as_bytes().to_vec(), is_dir: *d })
        .collect()
}

#[test]
fn run_listing_keeps_numeric_directories_sorted() {
    let entries = dirs(&[
        ("3", true),
        ("1", true),
        ("junk", true),
        ("2", false),
        ("10", true),
        ("next_run_id", false),
    ]);
    assert_eq!(list_run_ids(&entries), vec![1, 3, 10]);
}

#[test]
fn run_listing_of_deleted_project_is_empty() {
    // After a project is removed, its runs directory lists nothing, and the
    // listing is an empty success, not an error.
    assert_eq!(list_run_ids(&Vec::new()), Vec::<u64>::new());
}

#[test]
fn project_listing_keeps_directories_sorted() {
    let entries = dirs(&[("zeta", true), ("alpha", true), ("stray.txt", false), ("beta", true)]);
    let names = list_projects(&entries);
    assert_eq!(names, vec![b"alpha".to_vec(), b"beta".to_vec(), b"zeta".to_vec()]);
}

#[test]
fn project_listing_skips_non_conforming_names() {
    // Only valid project identifiers are listed; a directory named with a
    // space or other stray characters is silently skipped, never an error.
    let entries = dirs(&[
        ("ok-name", true),
        ("has space", true),
        ("p\u{e4}x", true),
        ("", true),
        ("also.ok", true),
    ]);
    let names = list_projects(&entries);
    assert_eq!(names, vec![b"also.ok".to_vec(), b"ok-name".to_vec()]);
}

#[test]
fn summary_aggregates_latest_status() {
    let st = RunStatus { status: Outcome::Failed, error: Some(b"boom".to_vec()) };
    let s = project_summary(&b"demo".to_vec(), &vec![1, 2, 3], Some(3), &Some(st));
    assert_eq!(s.project, b"demo".to_vec());
    assert_eq!(s.runs_count, 3);
    assert_eq!(s.latest_run_id, Some(3));
    assert_eq!(s.latest_status, Some(Outcome::Failed));
    assert_eq!(s.latest_error, Some(b"boom".to_vec()));
}

#[test]
fn summary_degrades_to_unknown_without_status() {
    let s = project_summary(&b"demo".to_vec(), &Vec::new(), None, &None);
    assert_eq!(s.runs_count, 0);
    assert_eq!(s.latest_run_id, None);
    assert_eq!(s.latest_status, None);
    assert_eq!(s.latest_error, None);
}

#[test]
fn project_names_validate_before_any_directory_exists() {
    assert_eq!(sanitize_name(&b"demo".to_vec()), Some(b"demo".to_vec()));
    assert_eq!(sanitize_name(&b"a-B_3.x".to_vec()), Some(b"a-B_3.x".to_vec()));
    assert_eq!(sanitize_name(&b"".to_vec()), None);
    assert_eq!(sanitize_name(&b"has space".to_vec()), None);
    assert_eq!(sanitize_name(&b"slash/y".to_vec()), None);
    assert_eq!(sanitize_name(&"päx".as_bytes().to_vec()), None);
    assert_eq!(sanitize_name(&vec![b'a'; 80]), Some(vec![b'a'; 80]));
    assert_eq!(sanitize_name(&vec![b'a'; 81]), None);
}

#[test]
fn clip_truncates_with_a_note() {
    assert_eq!(clip(&b"short".to_vec(), 10), b"short".to_vec());
    assert_eq!(clip(&b"abcdefghij".to_vec(), 4), b"abcd...[truncated 6 bytes]".to_vec());
}

#[test]
fn summaries_sort_by_project_name() {
    let b = project_summary(&b"beta".to_vec(), &vec![1], Some(1), &None);
    let a = project_summary(&b"alpha".to_vec(), &Vec::new(), None, &None);
    let sorted = sort_project_summaries(vec![b, a]);
    assert_eq!(sorted[0].project, b"alpha".to_vec());
    assert_eq!(sorted[1].project, b"beta".to_vec());
}
