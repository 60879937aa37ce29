use vidflow::download::{Cancellation, ControlError, DownloadManager, SpawnAck, StartError, Termination};
use vidflow::persistence::{PersistedTask, PersistenceData, PersistenceManager};
use vidflow::process::integrity_verdict;
use vidflow::status::DownloadStatus;

fn start(m: &mut DownloadManager, id: &str) -> bool {
    m.start_download(
        "https://example/video".to_string(),
        id.to_string(),
        "Video".to_string(),
        None,
        Some("137".to_string()),
        None,
    )
    .unwrap()
    .is_some()
}

fn status(m: &DownloadManager, id: &str) -> DownloadStatus {
    m.task(id).unwrap().status
}

/// Starts task `a` and feeds the first lines of the happy path.
fn running(m: &mut DownloadManager) {
    assert!(start(m, "a"));
    assert_eq!(status(m, "a"), DownloadStatus::Preparing);
    match m.on_spawned("a", 42, None) {
        SpawnAck::Proceed(p) => assert_eq!(p.status, DownloadStatus::Downloading),
        SpawnAck::Abort(_) => panic!("spawn refused"),
    }
    assert!(m.apply_line("a", "[download] Destination: /tmp/out.mp4").is_none());
    let p = m.apply_line("a", "1000|10000|500.0|18").unwrap();
    assert_eq!(p.progress, 1000);
    assert_eq!(p.speed, Some(500));
    assert_eq!(p.eta, Some(18));
}

fn merged_and_exited(m: &mut DownloadManager) {
    let p = m.apply_line("a", "5000|10000|750.0|7").unwrap();
    assert_eq!(p.progress, 5000);
    assert_eq!(p.total_size, Some(10000));
    assert_eq!(p.downloaded_bytes, Some(5000));
    let p = m.apply_line("a", "[Merger] Merging formats into \"/tmp/out.mkv\"").unwrap();
    assert_eq!(p.status, DownloadStatus::Merging);
    assert_eq!(p.progress, 10000);
    assert_eq!(p.final_path, Some("/tmp/out.mkv".to_string()));
    match m.on_terminated("a", Some(0)) {
        Termination::Verify(path) => assert_eq!(path, "/tmp/out.mkv"),
        _ => panic!("expected verification"),
    }
}

#[test]
fn happy_path_completes() {
    let mut m = DownloadManager::new();
    running(&mut m);
    merged_and_exited(&mut m);
    let st = m.on_verified("a", integrity_verdict(true, 4096, true, "")).unwrap();
    assert_eq!(st.payload.status, DownloadStatus::Completed);
    assert_eq!(st.payload.progress, 10000);
    assert_eq!(st.payload.final_path, Some("/tmp/out.mkv".to_string()));
    assert_eq!(st.payload.can_retry, Some(false));
    assert_eq!(st.payload.version, 1);
    assert!(st.remove_files.is_empty());
    assert!(m.task("a").unwrap().child.is_none());
}

#[test]
fn verifier_rejects() {
    let mut m = DownloadManager::new();
    running(&mut m);
    merged_and_exited(&mut m);
    let verdict = integrity_verdict(true, 4096, false, "moov atom not found");
    let st = m.on_verified("a", verdict).unwrap();
    assert_eq!(st.payload.status, DownloadStatus::Error);
    assert!(st.payload.error_message.unwrap().contains("moov atom not found"));
    assert_eq!(st.payload.can_retry, Some(true));
    assert_eq!(st.remove_files, vec!["/tmp/out.mkv.part", "/tmp/out.mkv.ytdl"]);
}

#[test]
fn cancel_mid_flight() {
    let mut m = DownloadManager::new();
    assert!(start(&mut m, "a"));
    m.on_spawned("a", 42, Some("/tmp/vidflow_cookies_a.txt".to_string()));
    m.apply_line("a", "[download] Destination: /tmp/out.mp4");
    m.apply_line("a", "3000|10000|100.0|70");
    let c: Cancellation = m.cancel_download("a").unwrap();
    assert_eq!(c.kill, Some(42));
    assert!(!c.settle_now);
    assert_eq!(c.remove_files, vec!["/tmp/vidflow_cookies_a.txt"]);
    assert_eq!(c.payload.status, DownloadStatus::Cancelled);
    assert_eq!(status(&m, "a"), DownloadStatus::Cancelled);
    assert!(m.task("a").unwrap().child.is_none());
    match m.on_terminated("a", None) {
        Termination::Settled(st) => {
            assert_eq!(st.payload.status, DownloadStatus::Cancelled);
            assert_eq!(st.remove_files, vec!["/tmp/out.mp4.part", "/tmp/out.mp4.ytdl"]);
        }
        _ => panic!("expected settlement"),
    }
    let again = m.cancel_download("a").unwrap();
    assert_eq!(again.kill, None);
    assert_eq!(status(&m, "a"), DownloadStatus::Cancelled);
    assert!(m.cancel_download("missing").is_none());
}

#[test]
fn concurrency_cap() {
    let mut m = DownloadManager::new();
    assert!(start(&mut m, "A"));
    assert!(start(&mut m, "B"));
    assert!(!start(&mut m, "C"));
    assert_eq!(m.active_count(), 2);
    assert_eq!(status(&m, "C"), DownloadStatus::Queued);
    m.on_spawned("A", 1, None);
    m.on_spawned("B", 2, None);
    assert!(m.process_queue().is_none());
    assert_eq!(status(&m, "C"), DownloadStatus::Queued);
    match m.on_terminated("A", Some(1)) {
        Termination::Settled(st) => {
            assert_eq!(st.payload.status, DownloadStatus::Error);
            assert_eq!(st.payload.error_message, Some("Download failed".to_string()));
        }
        _ => panic!("expected settlement"),
    }
    let plan = m.process_queue().unwrap();
    assert_eq!(plan.id, "C");
    assert_eq!(plan.format_spec, Some("137".to_string()));
    assert_eq!(status(&m, "C"), DownloadStatus::Preparing);
    assert_eq!(m.active_count(), 2);
}

#[test]
fn pause_and_resume() {
    let mut m = DownloadManager::new();
    running(&mut m);
    assert_eq!(m.pause_download("a", true), Ok(42));
    assert_eq!(status(&m, "a"), DownloadStatus::Paused);
    assert!(m.apply_line("a", "2000|10000|500.0|16").is_none());
    assert!(m.apply_line("a", "[Merger] Merging formats into \"/tmp/out.mkv\"").is_none());
    assert_eq!(status(&m, "a"), DownloadStatus::Paused);
    assert_eq!(m.pause_download("a", true), Err(ControlError::WrongState));
    assert_eq!(m.resume_download("a", true), Ok(42));
    assert_eq!(status(&m, "a"), DownloadStatus::Downloading);
    let p = m.apply_line("a", "2000|10000|500.0|16").unwrap();
    assert_eq!(p.progress, 2000);
    assert_eq!(m.resume_download("a", true), Err(ControlError::WrongState));
}

#[test]
fn pause_refusals() {
    let mut m = DownloadManager::new();
    assert_eq!(m.pause_download("x", true), Err(ControlError::NotFound));
    running(&mut m);
    assert_eq!(m.pause_download("a", false), Err(ControlError::Unsupported));
    assert_eq!(status(&m, "a"), DownloadStatus::Downloading);
    assert!(start(&mut m, "b"));
    assert_eq!(m.pause_download("b", true), Err(ControlError::WrongState));
}

fn persisted(id: &str, status: DownloadStatus, progress: u64) -> PersistedTask {
    PersistedTask {
        id: id.to_string(),
        url: format!("https://example/{}", id),
        status,
        title: id.to_uppercase(),
        progress,
        download_dir: Some(format!("/tmp/{}.mp4", id)),
    }
}

#[test]
fn crash_recovery() {
    let loaded = vec![
        persisted("A", DownloadStatus::Downloading, 4200),
        persisted("B", DownloadStatus::Completed, 10000),
        persisted("C", DownloadStatus::Queued, 0),
    ];
    let m = DownloadManager::from_persisted(loaded);
    let a = m.task("A").unwrap();
    assert_eq!(a.status, DownloadStatus::Error);
    assert_eq!(a.error_message, Some("interrupted".to_string()));
    assert_eq!(a.progress, 4200);
    assert_eq!(status(&m, "B"), DownloadStatus::Completed);
    assert_eq!(m.task("B").unwrap().error_message, None);
    assert_eq!(status(&m, "C"), DownloadStatus::Error);
    assert_eq!(m.active_count(), 0);
}

#[test]
fn recovery_keeps_last_of_repeated_ids() {
    let loaded = vec![
        persisted("A", DownloadStatus::Cancelled, 100),
        persisted("B", DownloadStatus::Completed, 10000),
        persisted("A", DownloadStatus::Completed, 20000),
    ];
    let m = DownloadManager::from_persisted(loaded);
    assert_eq!(m.tasks.len(), 2);
    assert_eq!(m.tasks[0].id, "A");
    assert_eq!(m.tasks[0].status, DownloadStatus::Completed);
    assert_eq!(m.tasks[0].progress, 10000);
}

#[test]
fn persistence_round_trip() {
    let mut m = DownloadManager::new();
    running(&mut m);
    assert!(start(&mut m, "b"));
    assert!(!start(&mut m, "c"));
    m.cancel_download("c");
    let data: PersistenceData = PersistenceManager::snapshot_tasks(&m);
    assert_eq!(data.version, 1);
    assert_eq!(data.tasks.len(), 3);
    assert_eq!(data.tasks[0].download_dir, Some("/tmp/out.mp4".to_string()));
    let chosen = PersistenceManager::choose_loaded(Some(data), None).unwrap();
    let back = DownloadManager::from_persisted(chosen);
    let ids: Vec<&str> = back.tasks.iter().map(|t| t.id.as_str()).collect();
    assert_eq!(ids, vec!["a", "b", "c"]);
    assert_eq!(back.tasks[0].status, DownloadStatus::Error);
    assert_eq!(back.tasks[0].progress, 1000);
    assert_eq!(back.tasks[0].final_path, Some("/tmp/out.mp4".to_string()));
    assert_eq!(back.tasks[1].status, DownloadStatus::Error);
    assert_eq!(back.tasks[2].status, DownloadStatus::Cancelled);
    assert_eq!(back.tasks[2].title, "Video");
}

#[test]
fn loaded_version_choice() {
    let newer = PersistenceData { version: 2, tasks: vec![persisted("x", DownloadStatus::Error, 0)] };
    assert!(PersistenceManager::needs_fallback(&Some(newer)));
    let newer = PersistenceData { version: 2, tasks: vec![persisted("x", DownloadStatus::Error, 0)] };
    let bare = vec![persisted("y", DownloadStatus::Error, 0)];
    let chosen = PersistenceManager::choose_loaded(Some(newer), Some(bare)).unwrap();
    assert_eq!(chosen[0].id, "y");
    assert!(PersistenceManager::choose_loaded(None, None).is_none());
    assert!(PersistenceManager::needs_fallback(&None));
}

#[test]
fn persistence_paths() {
    let p = PersistenceManager::new("/data/app".to_string());
    assert_eq!(p.path(), "/data/app/tasks.json");
    assert_eq!(p.temp_path(), "/data/app/tasks.json.tmp");
    assert_eq!(PersistenceManager::new("/data/".to_string()).path(), "/data/tasks.json");
    assert_eq!(PersistenceManager::new(String::new()).path(), "tasks.json");
}

#[test]
fn scheduler_admits_when_slot_frees() {
    let mut m = DownloadManager::new();
    assert!(start(&mut m, "A"));
    assert!(start(&mut m, "B"));
    assert!(!start(&mut m, "C"));
    let c = m.cancel_download("B").unwrap();
    assert!(c.settle_now);
    assert_eq!(m.process_queue().unwrap().id, "C");
}

#[test]
fn duplicate_id_is_refused() {
    let mut m = DownloadManager::new();
    assert!(start(&mut m, "A"));
    let r = m.start_download("u".to_string(), "A".to_string(), "t".to_string(), None, None, None);
    assert!(matches!(r, Err(StartError::DuplicateId)));
    assert_eq!(m.tasks.len(), 1);
}

#[test]
fn create_download_assigns_fresh_ids() {
    let mut m = DownloadManager::new();
    let (a, plan) = m.create_download("u".to_string(), "t".to_string(), None, None, None).unwrap();
    let (b, _) = m.create_download("u".to_string(), "t".to_string(), None, None, None).unwrap();
    assert_eq!(a.len(), 36);
    assert_ne!(a, b);
    assert_eq!(plan.unwrap().id, a);
}

#[test]
fn spawn_after_cancel_is_aborted() {
    let mut m = DownloadManager::new();
    assert!(start(&mut m, "a"));
    m.cancel_download("a");
    match m.on_spawned("a", 7, Some("/tmp/c.txt".to_string())) {
        SpawnAck::Abort(files) => assert_eq!(files, vec!["/tmp/c.txt"]),
        SpawnAck::Proceed(_) => panic!("cancelled task accepted a process"),
    }
}

#[test]
fn spawn_failure_errors_the_task() {
    let mut m = DownloadManager::new();
    assert!(start(&mut m, "a"));
    let st = m.on_spawn_failed("a", Some("/tmp/c.txt".to_string())).unwrap();
    assert_eq!(st.payload.status, DownloadStatus::Error);
    assert_eq!(st.payload.error_message, Some("Failed to start process".to_string()));
    assert_eq!(st.remove_files, vec!["/tmp/c.txt"]);
    assert_eq!(m.active_count(), 0);
}

#[test]
fn exit_without_artifact_fails() {
    let mut m = DownloadManager::new();
    assert!(start(&mut m, "a"));
    m.on_spawned("a", 9, None);
    match m.on_terminated("a", Some(0)) {
        Termination::Settled(st) => assert_eq!(st.payload.status, DownloadStatus::Error),
        _ => panic!("expected failure"),
    }
    assert!(matches!(m.on_terminated("a", Some(0)), Termination::Ignored));
    assert!(matches!(m.on_terminated("zzz", Some(0)), Termination::Ignored));
}

#[test]
fn progress_never_decreases_within_a_run() {
    let mut m = DownloadManager::new();
    running(&mut m);
    let p = m.apply_line("a", "500|10000|1|1").unwrap();
    assert_eq!(p.progress, 1000);
    assert_eq!(p.downloaded_bytes, Some(500));
}

#[test]
fn finished_tasks_ignore_lines() {
    let mut m = DownloadManager::new();
    running(&mut m);
    m.cancel_download("a");
    assert!(m.apply_line("a", "9000|10000|1|1").is_none());
    assert!(m.apply_line("a", "[Merger] Merging formats into \"/x\"").is_none());
    assert_eq!(m.task("a").unwrap().progress, 1000);
}

#[test]
fn shutdown_takes_every_process() {
    let mut m = DownloadManager::new();
    assert!(start(&mut m, "a"));
    assert!(start(&mut m, "b"));
    m.on_spawned("a", 11, None);
    m.on_spawned("b", 12, None);
    assert_eq!(m.cleanup_all(), vec![11, 12]);
    assert!(m.tasks.iter().all(|t| t.child.is_none()));
    assert!(m.cleanup_all().is_empty());
}

#[test]
fn list_reports_every_task() {
    let mut m = DownloadManager::new();
    running(&mut m);
    assert!(start(&mut m, "b"));
    let list = m.get_tasks();
    assert_eq!(list.len(), 2);
    assert_eq!(list[0].id, "a");
    assert_eq!(list[0].progress, 1000);
    assert_eq!(list[1].status, DownloadStatus::Preparing);
    assert_eq!(m.payload_for("b").unwrap().id, "b");
    assert!(m.payload_for("nope").is_none());
}

#[test]
fn verdict_before_exit_does_not_complete() {
    let mut m = DownloadManager::new();
    running(&mut m);
    let st = m.on_verified("a", Ok(())).unwrap();
    assert_eq!(st.payload.status, DownloadStatus::Error);
    assert_eq!(st.payload.error_message, Some("Download failed".to_string()));
    assert_eq!(st.remove_files, vec!["/tmp/out.mp4.part", "/tmp/out.mp4.ytdl"]);
}

#[test]
fn create_download_succeeds_on_fresh_registry() {
    let mut m = DownloadManager::new();
    assert!(start(&mut m, "short"));
    assert!(m.create_download("u".to_string(), "t".to_string(), None, None, None).is_ok());
}

#[test]
fn cancel_of_paused_task_without_process_settles_now() {
    let mut m = DownloadManager::new();
    running(&mut m);
    assert_eq!(m.pause_download("a", true), Ok(42));
    assert!(matches!(m.on_terminated("a", Some(1)), Termination::Settled(_)));
    assert_eq!(status(&m, "a"), DownloadStatus::Paused);
    let c = m.cancel_download("a").unwrap();
    assert!(c.settle_now);
    assert_eq!(c.kill, None);
    assert_eq!(status(&m, "a"), DownloadStatus::Cancelled);
}

#[test]
fn cancel_while_awaiting_verdict_waits_for_it() {
    let mut m = DownloadManager::new();
    running(&mut m);
    merged_and_exited(&mut m);
    let c = m.cancel_download("a").unwrap();
    assert!(!c.settle_now);
    let st = m.on_verified("a", Ok(())).unwrap();
    assert_eq!(st.payload.status, DownloadStatus::Cancelled);
    assert_eq!(st.remove_files, vec!["/tmp/out.mkv.part", "/tmp/out.mkv.ytdl"]);
}

#[test]
fn pump_all_fills_free_slots() {
    let mut m = DownloadManager::new();
    for id in ["A", "B", "C"] {
        m.start_download("u".to_string(), id.to_string(), "t".to_string(), None, None, None).unwrap();
    }
    m.cancel_download("A");
    m.cancel_download("B");
    m.start_download("u".to_string(), "D".to_string(), "t".to_string(), None, None, None).unwrap();
    assert_eq!(status(&m, "D"), DownloadStatus::Queued);
    let plans = m.pump_all();
    let ids: Vec<&str> = plans.iter().map(|p| p.id.as_str()).collect();
    assert_eq!(ids, vec!["D"]);
    assert_eq!(m.active_count(), 2);
    assert!(m.pump_all().is_empty());
}
