use std::io::Write;

use allure_runs::api::{
    delete_response, regenerate_response, run_item, run_status_for_render, should_advance_latest_after_upload,
    should_advance_latest_on_regenerate, sort_run_ids_desc, status_for_bad_zip, summaries_response,
    ui_latest_url, ui_run_url, upload_response,
};
use allure_runs::listing::{list_run_ids, project_summary, DirEntry};
use allure_runs::records::{decode_status_json, encode_meta_json, encode_status_json, Meta, Outcome};
use allure_runs::storage::{latest_run_id_content, read_latest_run_id, reserve_next_run_id};
use allure_runs::unzip::{unzip_safely, UnzipLimits};
use allure_runs::util::sanitize_name;

fn demo_archive() -> Vec<u8> {
    let stored =
        zip::write::SimpleFileOptions::default().compression_method(zip::CompressionMethod::Stored);
    let mut w = zip::ZipWriter::new(std::io::Cursor::new(Vec::new()));
    w.start_file("a/b.txt", stored).unwrap();
    w.write_all(b"xyz").unwrap();
    w.add_directory("c", stored).unwrap();
    w.finish().unwrap().into_inner()
}

#[test]
fn first_upload_reserves_run_one_and_advances_pointer() {
    // A first upload to "demo": the name validates, run ID 1 is reserved,
    // the archive extracts to a/b.txt (3 bytes) and empty directory c, the
    // run succeeds, and the latest pointer then reads 1.
    let project = sanitize_name(&b"demo".to_vec()).unwrap();

    let (run_id, counter_after) = reserve_next_run_id(&None);
    assert_eq!(run_id, 1);
    assert_eq!(counter_after, b"2".to_vec());

    let dest = b"/data/projects/demo/runs/1/allure-results".to_vec();
    let tree = unzip_safely(demo_archive(), &dest, &UnzipLimits::default()).unwrap();
    assert_eq!(tree.len(), 2);
    assert_eq!(tree[0].path, b"a/b.txt".to_vec());
    assert_eq!(tree[0].data.len(), 3);
    assert_eq!(tree[1].path, b"c".to_vec());
    assert!(tree[1].is_dir);

    let status = run_status_for_render(None);
    assert_eq!(status.status, Outcome::Success);
    assert!(should_advance_latest_after_upload(&status));

    let pointer = latest_run_id_content(run_id);
    assert_eq!(read_latest_run_id(&Some(pointer)), Some(1));

    let resp = upload_response(&project, run_id, &status);
    assert_eq!(resp.ui_url, b"/ui/demo/runs/1/".to_vec());
    assert_eq!(resp.latest_url, b"/ui/demo/latest/".to_vec());
    assert_eq!(resp.status, Outcome::Success);
    assert_eq!(resp.error, None);
}

#[test]
fn second_upload_with_failed_render_keeps_pointer_at_one() {
    // A second upload to "demo" whose renderer fails: run ID 2 is consumed,
    // its status records the failure, and the latest pointer stays at 1.
    let (run_id, counter_after) = reserve_next_run_id(&Some(b"2".to_vec()));
    assert_eq!(run_id, 2);
    assert_eq!(counter_after, b"3".to_vec());

    let status = run_status_for_render(Some(b"allure generate failed (exit_code=1)".to_vec()));
    assert_eq!(status.status, Outcome::Failed);
    assert!(!should_advance_latest_after_upload(&status));

    let written = encode_status_json(&status);
    let back = decode_status_json(&written).unwrap();
    assert_eq!(back.status, Outcome::Failed);
    assert_eq!(back.error, Some(b"allure generate failed (exit_code=1)".to_vec()));

    // The pointer file was not rewritten, so it still reads 1.
    assert_eq!(read_latest_run_id(&Some(b"1".to_vec())), Some(1));

    let resp = upload_response(&b"demo".to_vec(), run_id, &status);
    assert_eq!(resp.run_id, 2);
    assert_eq!(resp.status, Outcome::Failed);
    assert_eq!(resp.ui_url, b"/ui/demo/runs/2/".to_vec());
}

#[test]
fn delete_then_list_is_an_empty_success() {
    // Deleting "demo" and immediately listing its runs: the runs directory
    // is gone, the listing input is empty, and the result is an empty list.
    let resp = delete_response(&b"demo".to_vec());
    assert!(resp.deleted);
    assert_eq!(resp.project, b"demo".to_vec());
    assert_eq!(list_run_ids(&Vec::<DirEntry>::new()), Vec::<u64>::new());
}

#[test]
fn bad_archive_status_carries_the_diagnostic() {
    let r = unzip_safely(b"junk".to_vec(), &b"/tmp/dest".to_vec(), &UnzipLimits::default());
    let e = r.unwrap_err();
    let st = status_for_bad_zip(&e);
    assert_eq!(st.status, Outcome::Failed);
    let msg = st.error.unwrap();
    assert!(msg.starts_with(b"bad zip: "));
}

#[test]
fn regenerate_pointer_policy_is_asymmetric() {
    assert!(should_advance_latest_on_regenerate(None, 5));
    assert!(should_advance_latest_on_regenerate(Some(5), 5));
    assert!(!should_advance_latest_on_regenerate(Some(7), 5));
}

#[test]
fn regenerate_response_reports_the_status() {
    let status = run_status_for_render(Some(b"renderer broke".to_vec()));
    let resp = regenerate_response(&b"demo".to_vec(), 4, &status);
    assert_eq!(resp.project, b"demo".to_vec());
    assert_eq!(resp.run_id, 4);
    assert_eq!(resp.status, Outcome::Failed);
    assert_eq!(resp.error, Some(b"renderer broke".to_vec()));
}

#[test]
fn run_listing_rows_carry_urls_and_status() {
    let item = run_item(&b"demo".to_vec(), 9, &Some(run_status_for_render(None)));
    assert_eq!(item.run_id, 9);
    assert_eq!(item.status, Some(Outcome::Success));
    assert_eq!(item.error, None);
    assert_eq!(item.ui_url, b"/ui/demo/runs/9/".to_vec());

    let unknown = run_item(&b"demo".to_vec(), 10, &None);
    assert_eq!(unknown.status, None);
    assert_eq!(unknown.error, None);
}

#[test]
fn run_ids_sort_newest_first_for_listing() {
    assert_eq!(sort_run_ids_desc(vec![3, 10, 1]), vec![10, 3, 1]);
}

#[test]
fn summaries_response_totals_runs() {
    let a = project_summary(&b"alpha".to_vec(), &vec![1, 2], Some(2), &None);
    let b = project_summary(&b"beta".to_vec(), &vec![1, 2, 3], Some(3), &None);
    let resp = summaries_response(vec![a, b]);
    assert_eq!(resp.total_projects, 2);
    assert_eq!(resp.total_runs, 5);
}

#[test]
fn urls_follow_the_ui_conventions() {
    assert_eq!(ui_run_url(&b"p-1".to_vec(), 12), b"/ui/p-1/runs/12/".to_vec());
    assert_eq!(ui_latest_url(&b"p-1".to_vec()), b"/ui/p-1/latest/".to_vec());
}

#[test]
fn meta_record_encodes_all_fields() {
    let m = Meta {
        branch: Some(b"main".to_vec()),
        commit: Some(b"abc123".to_vec()),
        trigger: None,
        started_at: Some(b"2024-01-01T00:00:00Z".to_vec()),
    };
    let bytes = encode_meta_json(&m);
    assert_eq!(
        bytes,
        b"{\"branch\":\"main\",\"commit\":\"abc123\",\"trigger\":null,\"started_at\":\"2024-01-01T00:00:00Z\"}"
            .to_vec()
    );
    let empty = encode_meta_json(&Meta::default());
    assert_eq!(
        empty,
        b"{\"branch\":null,\"commit\":null,\"trigger\":null,\"started_at\":null}".to_vec()
    );
}
