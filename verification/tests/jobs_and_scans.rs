use sceneweaver::collections::{acg_tag_value, has_duplicate, reorder_positions};
use sceneweaver::errors::AppError;
use sceneweaver::jobs::{
    apply_control, finish_job, next_job, recover_interrupted, retried_job, start_job, ControlRequest, Job, JobControl,
    RunOutcome,
};
use sceneweaver::models::{JobStatus, JobType, LibraryStatus, MediaType};
use sceneweaver::scan::{
    default_exclude_patterns, default_include_patterns, is_hidden, is_media_extension, is_media_file, needs_reindex,
    normalize_path, pattern_verdict, quick_fingerprint,
};

fn job(status: JobStatus, priority: i32, created_at: i64) -> Job {
    Job {
        id: format!("job-{priority}-{created_at}"),
        job_type: JobType::Scan,
        library_id: Some("library-1".to_string()),
        asset_id: None,
        status,
        priority,
        current_step: String::new(),
        checkpoint_json: None,
        error_code: None,
        error_message: None,
        started_at: None,
        finished_at: None,
        created_at,
        updated_at: created_at,
    }
}

#[test]
fn pause_resume_and_cancel_are_observable() {
    let control = JobControl::new();
    control.pause();
    assert!(control.is_paused());
    control.resume();
    assert!(!control.is_paused());
    control.cancel();
    assert!(control.is_cancelled());
}

#[test]
fn fingerprint_is_stable_for_a_chinese_path() {
    let path = r"E:\素材 库\夜景\镜头 01.mp4";
    assert_eq!(quick_fingerprint(path, 42, 1000), quick_fingerprint(path, 42, 1000));
}

#[test]
fn unchanged_indexed_asset_does_not_reindex() {
    assert!(!needs_reindex("same", "same", "indexed"));
    assert!(needs_reindex("same", "new", "indexed"));
    assert!(needs_reindex("same", "same", "offline"));
}

#[test]
fn recognises_supported_media_extensions_case_insensitively() {
    assert!(is_media_file("C:/素材/夜景.MP4"));
    assert!(is_media_file("C:/素材/角色.png"));
    assert!(!is_media_file("C:/素材/notes.txt"));
    assert!(is_media_file("/library/shots/rain.Mkv"));
    assert!(is_media_file("D:\\素材\\夜景.final.MP4"));
    assert!(!is_media_file("D:\\素材\\notes.txt"));
    assert!(!is_media_file("/library/shots/readme"));
}

#[test]
fn normalises_a_chinese_windows_path() {
    let path = normalize_path(r"E:\媒体 库\角色\雨夜.png");
    assert!(path.contains("媒体 库\\角色\\雨夜.png"));
    assert!(!path.contains('/'));
}

#[test]
fn fingerprint_joins_path_size_and_time() {
    assert_eq!(quick_fingerprint("a\\b.png", 42, -7), "a\\b.png|42|-7");
    assert!(needs_reindex("x", "x", "error"));
    assert!(is_media_extension("M2TS"));
    assert!(!is_media_extension("txt"));
    assert!(is_hidden(".git"));
    assert!(!is_hidden("."));
    assert!(!is_hidden("clip.mp4"));
    assert_eq!(normalize_path("a/b/c.mp4"), "a\\b\\c.mp4");
}

#[test]
fn default_patterns_include_everything_but_dot_files_and_caches() {
    assert_eq!(default_include_patterns(), vec!["**/*".to_string()]);
    assert_eq!(
        default_exclude_patterns(),
        vec!["**/.*".to_string(), "**/Thumbs.db".to_string(), "**/.DS_Store".to_string()]
    );
    assert!(pattern_verdict(&vec![], &vec![]));
    assert!(!pattern_verdict(&vec![false], &vec![]));
    assert!(!pattern_verdict(&vec![true], &vec![false, true]));
    assert!(pattern_verdict(&vec![false, true], &vec![false]));
}

#[test]
fn control_requests_follow_the_job_state_machine() {
    let mut running = job(JobStatus::Running, 0, 5);
    let effect = apply_control(&mut running, ControlRequest::Pause, 10);
    assert!(effect.store);
    assert_eq!(running.status, JobStatus::Paused);
    assert_eq!(effect.library.as_ref().map(|l| l.status), Some(LibraryStatus::Paused));
    let effect = apply_control(&mut running, ControlRequest::Resume, 11);
    assert!(effect.store);
    assert_eq!(running.status, JobStatus::Pending);
    assert_eq!(running.updated_at, 11);
    let effect = apply_control(&mut running, ControlRequest::Cancel, 12);
    assert!(effect.store);
    assert_eq!(running.status, JobStatus::Cancelled);
    assert_eq!(running.finished_at, Some(12));
    let effect = apply_control(&mut running, ControlRequest::Cancel, 13);
    assert!(!effect.store);
    assert_eq!(running.finished_at, Some(12));
    let mut done = job(JobStatus::Completed, 0, 5);
    assert!(!apply_control(&mut done, ControlRequest::Pause, 20).store);
    assert_eq!(done.status, JobStatus::Completed);
}

#[test]
fn run_outcomes_set_final_states() {
    let mut j = job(JobStatus::Pending, 0, 5);
    let effect = start_job(&mut j, 7);
    assert_eq!(j.status, JobStatus::Running);
    assert_eq!(j.started_at, Some(7));
    assert_eq!(effect.library.map(|l| l.status), Some(LibraryStatus::Scanning));
    let effect = finish_job(&mut j, RunOutcome::Failed("磁盘错误".to_string()), 9);
    assert_eq!(j.status, JobStatus::Failed);
    assert_eq!(j.error_code.as_deref(), Some("scan_failed"));
    assert_eq!(j.error_message.as_deref(), Some("磁盘错误"));
    assert_eq!(effect.library.map(|l| l.status), Some(LibraryStatus::Failed));
    let mut k = job(JobStatus::Running, 0, 5);
    let effect = finish_job(&mut k, RunOutcome::Completed, 30);
    assert!(effect.progress_complete);
    assert_eq!(effect.library.map(|l| (l.status, l.last_scan_at)), Some((LibraryStatus::Idle, Some(30))));
}

#[test]
fn only_failed_or_cancelled_jobs_are_retried() {
    let failed = job(JobStatus::Failed, 3, 5);
    let retry = retried_job(&failed, "new-id".to_string(), 99).unwrap();
    assert_eq!(retry.id, "new-id");
    assert_eq!(retry.status, JobStatus::Pending);
    assert_eq!(retry.priority, 3);
    assert_eq!(retry.current_step, "等待重试");
    assert_eq!(retry.created_at, 99);
    let running = job(JobStatus::Running, 3, 5);
    assert_eq!(
        retried_job(&running, "x".to_string(), 1).unwrap_err(),
        AppError::Other("只有失败或已取消的任务可以重试".to_string())
    );
}

#[test]
fn the_next_job_has_the_highest_priority_then_the_oldest() {
    let jobs = vec![job(JobStatus::Pending, 1, 5), job(JobStatus::Pending, 10, 9), job(JobStatus::Pending, 10, 3), job(JobStatus::Pending, 10, 3)];
    assert_eq!(next_job(&jobs), Some(2));
    assert_eq!(next_job(&vec![]), None);
}

#[test]
fn interrupted_running_jobs_are_requeued_but_paused_ones_stay() {
    let mut r = job(JobStatus::Running, 0, 5);
    assert!(recover_interrupted(&mut r, 50));
    assert_eq!(r.status, JobStatus::Pending);
    assert_eq!(r.current_step, "等待恢复（上次运行中断）");
    let mut p = job(JobStatus::Paused, 0, 5);
    assert!(!recover_interrupted(&mut p, 50));
    assert_eq!(p.status, JobStatus::Paused);
}

#[test]
fn reordering_shifts_the_items_in_between() {
    assert_eq!(reorder_positions(&vec![0, 1, 2, 3], 3, 1), vec![0, 2, 3, 1]);
    assert_eq!(reorder_positions(&vec![0, 1, 2, 3], 0, 99), vec![3, 0, 1, 2]);
    assert_eq!(reorder_positions(&vec![0, 1, 2], 1, -5), vec![1, 0, 2]);
}

#[test]
fn tag_values_are_trimmed_and_bounded() {
    assert_eq!(acg_tag_value("  粉色头发 ").unwrap(), "粉色头发");
    assert!(acg_tag_value("   ").is_err());
    assert!(acg_tag_value(&"x".repeat(81)).is_err());
    assert!(has_duplicate(&vec!["a".to_string(), "b".to_string(), "a".to_string()]));
    assert!(!has_duplicate(&vec!["a".to_string(), "b".to_string()]));
    assert_eq!(MediaType::from_extension("MOV"), MediaType::Video);
}
