use sceneweaver::jobs::{retry_job, Job};
use sceneweaver::models::{AssetStatus, JobStatus, JobType, MediaType};
use sceneweaver::scan::{analysed_asset_record, build_globset, content_hash, matches_patterns, ContentHasher, FileFacts};

#[test]
fn content_hash_is_lower_hex_blake3() {
    assert_eq!(
        content_hash(b"abc"),
        "6437b3ac38465133ffb63b75273a8db548c558465d79db03fd359c6cd5bd9d85"
    );
    assert_eq!(content_hash(b"").len(), 64);
}

#[test]
fn hashing_in_chunks_equals_hashing_at_once() {
    let mut hasher = ContentHasher::new();
    hasher.update("雨夜".as_bytes());
    hasher.update(b" scene.mp4");
    assert_eq!(hasher.finalize_hex(), content_hash("雨夜 scene.mp4".as_bytes()));
}

#[test]
fn glob_patterns_select_relative_paths() {
    let includes = build_globset(&vec!["**/*.png".to_string()]);
    let excludes = build_globset(&vec!["**/.*".to_string(), "**/Thumbs.db".to_string()]);
    assert!(matches_patterns("角色/雨夜.png", &includes, &excludes));
    assert!(!matches_patterns("角色/雨夜.jpg", &includes, &excludes));
    assert!(!matches_patterns("角色/.hidden.png", &includes, &excludes));
    let everything = build_globset(&Vec::new());
    assert!(matches_patterns("any/file.mov", &everything, &everything));
}

#[test]
fn patterns_that_do_not_parse_are_skipped() {
    let patterns = vec!["**/*.png".to_string(), "[unclosed".to_string(), "{a,b".to_string(), "**/Thumbs.db".to_string()];
    assert_eq!(build_globset(&patterns).len(), 2);
}

#[test]
fn deeply_nested_alternates_are_skipped_instead_of_panicking() {
    let nested = format!("{}{}", "{a,".repeat(300), "}".repeat(300));
    let includes = build_globset(&vec![nested, "**/*.mov".to_string()]);
    assert_eq!(includes.len(), 1);
    assert!(matches_patterns("shots/take.mov", &includes, &Vec::new()));
    assert!(!matches_patterns("shots/take.png", &includes, &Vec::new()));
}

#[test]
fn exclude_patterns_win_over_include_patterns() {
    let includes = build_globset(&vec!["**/*.png".to_string()]);
    let excludes = build_globset(&vec!["raw/**".to_string()]);
    assert!(!matches_patterns("raw/a.png", &includes, &excludes));
    assert!(matches_patterns("final/a.png", &includes, &excludes));
    assert!(!matches_patterns("final/a.png", &excludes, &includes));
}

#[test]
fn retried_jobs_get_a_fresh_identity() {
    let failed = Job {
        id: "job-failed".to_string(),
        job_type: JobType::Scan,
        library_id: Some("library-1".to_string()),
        asset_id: None,
        status: JobStatus::Failed,
        priority: 10,
        current_step: "扫描失败".to_string(),
        checkpoint_json: Some("{\"processed\":3}".to_string()),
        error_code: Some("scan_failed".to_string()),
        error_message: Some("磁盘不可用".to_string()),
        started_at: Some(5),
        finished_at: Some(9),
        created_at: 1,
        updated_at: 9,
    };
    let retried = retry_job(&failed, 100).expect("a failed job can be retried");
    assert_eq!(retried.id.len(), 36);
    assert_ne!(retried.id, failed.id);
    assert_eq!(retried.status, JobStatus::Pending);
    assert_eq!(retried.library_id, failed.library_id);
    assert!(retry_job(&Job { status: JobStatus::Running, ..failed }, 100).is_err());
}

#[test]
fn new_files_get_a_fresh_asset_id() {
    let facts = FileFacts {
        file_path: "D:\\素材\\雨夜.png".to_string(),
        normalized_path: "D:\\素材\\雨夜.png".to_string(),
        file_name: "雨夜.png".to_string(),
        extension: "png".to_string(),
        size_bytes: 42,
        modified_at: 1_000,
        quick_fingerprint: "D:\\素材\\雨夜.png|42|1000".to_string(),
    };
    let asset = analysed_asset_record("library-1", &facts, &None, &None, Some((32, 18)), 7);
    assert_eq!(asset.id.len(), 36);
    let id: Vec<char> = asset.id.chars().collect();
    for (i, c) in id.iter().enumerate() {
        if [8, 13, 18, 23].contains(&i) {
            assert_eq!(*c, '-');
        } else {
            assert!(c.is_ascii_digit() || ('a'..='f').contains(c));
        }
    }
    assert_eq!(id[14], '4');
    assert!(['8', '9', 'a', 'b'].contains(&id[19]));
    assert_eq!(asset.media_type, MediaType::Image);
    assert_eq!((asset.width, asset.height), (Some(32), Some(18)));
    assert_eq!(asset.status, AssetStatus::Indexed);
    assert_eq!(asset.created_at, 7);
}
