use clouddrive::download::{
    extract_filename, CreateDownloadRequest, DownloadListQuery, DownloadManager, DownloadStatus,
};
use clouddrive::TransferError;

fn all_tasks(mgr: &DownloadManager) -> Vec<clouddrive::download::RemoteDownloadTaskDto> {
    mgr.get_tasks(&DownloadListQuery { status: None, directory_id: None })
}

fn enqueue_one(mgr: &mut DownloadManager, id: &str, url: &str, dir: &str, now: i64) {
    mgr.enqueue_task(
        String::from(id),
        String::from(url),
        String::from(dir),
        String::from("a.bin"),
        now,
    )
    .unwrap();
}

#[test]
fn cancel_before_the_worker_starts_leaves_the_task_cancelled() {
    let mut mgr = DownloadManager::new();
    let ids = mgr
        .create_download_tasks(
            CreateDownloadRequest {
                urls: vec![String::from("http://host/a.bin")],
                directory_id: String::from("store1"),
                target_path: None,
            },
            String::from("/data/store1/downloads"),
            100,
        )
        .unwrap();
    assert_eq!(ids.len(), 1);
    let id = ids[0].clone();

    // The client dismisses the task before the worker ever ran.
    assert!(mgr.cancel_task(&id));

    // The worker now starts late: every step must leave the task cancelled.
    assert_eq!(mgr.mark_downloading(&id), Some(DownloadStatus::Cancelled));
    assert!(mgr.set_task_size(&id, Some(1000)));
    assert_eq!(mgr.record_progress(&id, 512), Some(DownloadStatus::Cancelled));
    assert_eq!(mgr.mark_completed(&id, 1000), Some(DownloadStatus::Cancelled));
    assert_eq!(mgr.mark_failed(&id, String::from("late error")), Some(DownloadStatus::Cancelled));

    let tasks = all_tasks(&mgr);
    assert_eq!(tasks.len(), 1);
    assert_eq!(tasks[0].status, "cancelled");
    assert_eq!(tasks[0].downloaded, 0);
    assert_eq!(tasks[0].size, None);
    assert_eq!(tasks[0].error, None);
}

#[test]
fn a_worker_runs_a_task_to_completion() {
    let mut mgr = DownloadManager::new();
    enqueue_one(&mut mgr, "t1", "http://host/a.bin", "/data/d", 5);
    let id = String::from("t1");
    assert_eq!(mgr.mark_downloading(&id), Some(DownloadStatus::Downloading));
    assert!(mgr.set_task_size(&id, Some(2048)));
    assert_eq!(mgr.record_progress(&id, 1024), Some(DownloadStatus::Downloading));
    assert_eq!(mgr.mark_completed(&id, 2048), Some(DownloadStatus::Completed));

    let tasks = all_tasks(&mgr);
    assert_eq!(tasks[0].status, "completed");
    assert_eq!(tasks[0].downloaded, 2048);
    assert_eq!(tasks[0].size, Some(2048));
}

#[test]
fn cancelling_a_downloading_task_sticks() {
    let mut mgr = DownloadManager::new();
    enqueue_one(&mut mgr, "t1", "http://host/a.bin", "/data/d", 5);
    let id = String::from("t1");
    mgr.mark_downloading(&id);
    mgr.record_progress(&id, 100);
    assert!(mgr.cancel_task(&id));
    // The worker notices at the next chunk boundary and stops; nothing it
    // does afterwards revives the task.
    assert_eq!(mgr.record_progress(&id, 200), Some(DownloadStatus::Cancelled));
    assert_eq!(mgr.mark_completed(&id, 300), Some(DownloadStatus::Cancelled));
    let tasks = all_tasks(&mgr);
    assert_eq!(tasks[0].status, "cancelled");
    assert_eq!(tasks[0].downloaded, 100);
}

#[test]
fn cancelling_a_finished_task_dismisses_it() {
    let mut mgr = DownloadManager::new();
    enqueue_one(&mut mgr, "t1", "http://host/a.bin", "/data/d", 5);
    let id = String::from("t1");
    mgr.mark_downloading(&id);
    mgr.mark_completed(&id, 7);
    assert_eq!(all_tasks(&mgr).len(), 1);
    // Cancel of a terminal task means "dismiss": it leaves the listing.
    assert!(!mgr.cancel_task(&id));
    assert_eq!(all_tasks(&mgr).len(), 0);
}

#[test]
fn failed_tasks_keep_their_error_message() {
    let mut mgr = DownloadManager::new();
    enqueue_one(&mut mgr, "t1", "http://host/a.bin", "/data/d", 5);
    let id = String::from("t1");
    mgr.mark_downloading(&id);
    assert_eq!(
        mgr.mark_failed(&id, String::from("connection reset")),
        Some(DownloadStatus::Failed)
    );
    let tasks = all_tasks(&mgr);
    assert_eq!(tasks[0].status, "failed");
    assert_eq!(tasks[0].error, Some(String::from("connection reset")));
}

#[test]
fn clear_removes_only_finished_tasks() {
    let mut mgr = DownloadManager::new();
    enqueue_one(&mut mgr, "pend", "http://host/a.bin", "/d", 1);
    enqueue_one(&mut mgr, "load", "http://host/b.bin", "/d", 2);
    enqueue_one(&mut mgr, "done", "http://host/c.bin", "/d", 3);
    enqueue_one(&mut mgr, "fail", "http://host/d.bin", "/d", 4);
    enqueue_one(&mut mgr, "gone", "http://host/e.bin", "/d", 5);
    mgr.mark_downloading(&String::from("load"));
    mgr.mark_downloading(&String::from("done"));
    mgr.mark_completed(&String::from("done"), 1);
    mgr.mark_downloading(&String::from("fail"));
    mgr.mark_failed(&String::from("fail"), String::from("boom"));
    mgr.cancel_task(&String::from("gone"));

    let cleared = mgr.clear_completed_tasks();
    assert_eq!(cleared, 3);
    let left = all_tasks(&mgr);
    assert_eq!(left.len(), 2);
    // A pending and a downloading task both survived the sweep.
    assert!(left.iter().any(|t| t.id == "pend" && t.status == "pending"));
    assert!(left.iter().any(|t| t.id == "load" && t.status == "downloading"));
}

#[test]
fn listing_is_sorted_newest_first_and_filters() {
    let mut mgr = DownloadManager::new();
    enqueue_one(&mut mgr, "t1", "http://host/a.bin", "/data/one", 10);
    enqueue_one(&mut mgr, "t2", "http://host/b.bin", "/data/two", 30);
    enqueue_one(&mut mgr, "t3", "http://host/c.bin", "/data/one", 20);
    mgr.mark_downloading(&String::from("t2"));

    let tasks = all_tasks(&mgr);
    assert_eq!(tasks.len(), 3);
    assert_eq!(tasks[0].id, "t2");
    assert_eq!(tasks[1].id, "t3");
    assert_eq!(tasks[2].id, "t1");

    let pending = mgr.get_tasks(
        &DownloadListQuery { status: Some(String::from("pending")), directory_id: None },
    );
    assert_eq!(pending.len(), 2);

    let one = mgr.get_tasks(
        &DownloadListQuery { status: None, directory_id: Some(String::from("/data/one")) },
    );
    assert_eq!(one.len(), 2);

    // An unrecognised status label filters nothing, as the wire protocol
    // always did.
    let odd = mgr.get_tasks(
        &DownloadListQuery { status: Some(String::from("everything")), directory_id: None },
    );
    assert_eq!(odd.len(), 3);
}

#[test]
fn enqueue_stops_at_the_first_invalid_url() {
    let mut mgr = DownloadManager::new();
    let r = mgr.create_download_tasks(
        CreateDownloadRequest {
            urls: vec![
                String::from("http://host/good.bin"),
                String::from("not a url"),
                String::from("http://host/never.bin"),
            ],
            directory_id: String::from("store1"),
            target_path: None,
        },
        String::from("/data/store1"),
        7,
    );
    assert_eq!(r.map(|_| ()), Err(TransferError::InvalidArgument));
    // The task enqueued before the bad URL stays.
    let tasks = all_tasks(&mgr);
    assert_eq!(tasks.len(), 1);
    assert_eq!(tasks[0].name, "good.bin");
    assert_eq!(tasks[0].status, "pending");
    assert_eq!(tasks[0].path, "/data/store1");
}

#[test]
fn destination_names_come_from_the_url_path() {
    assert_eq!(extract_filename("http://host/dir/a.bin"), "a.bin");
    assert_eq!(extract_filename("http://host/archive.tar.gz?sig=abc"), "archive.tar.gz");
    // An empty or extensionless final segment falls back to a generated
    // name, as does a URL that does not parse.
    let generated = extract_filename("http://host/dir/");
    assert!(generated.starts_with("download_") && generated.ends_with(".bin"));
    assert_eq!(generated.len(), "download_".len() + 8 + ".bin".len());
    let extensionless = extract_filename("http://host/file");
    assert!(extensionless.starts_with("download_") && extensionless.ends_with(".bin"));
    let invalid = extract_filename("not a url");
    assert!(invalid.starts_with("download_") && invalid.ends_with(".bin"));
    assert_eq!(invalid.len(), 21);
}
