use sceneweaver::cache::CacheManager;
use sceneweaver::collections::{appended_position, duplicate_path_error, rebased_asset, reconnect_allowed};
use sceneweaver::errors::AppError;
use sceneweaver::jobs::{scan_step, scan_target, total_step, Job};
use sceneweaver::models::{
    Asset, AssetStatus, CreateEntityRequest, CreateLibraryRequest, EntityReference, IndexProfile, JobStatus, JobType,
    Library, LibraryStatus, MediaType,
};
use sceneweaver::probe::{ascii_field_text, exif_capture_time, first_video_stream};
use sceneweaver::requests::{create_entity, new_entity, new_library, new_scan_job, scan_job};
use sceneweaver::scan::{classify_file, embedding_source, restored_asset, FileAction, ThumbnailService};
use sceneweaver::semantic::{reference_source, semantic_source, status, IndexOutcome, SemanticIndexResult};

fn library(status: LibraryStatus) -> Library {
    Library {
        id: "library-1".to_string(),
        name: "素材库".to_string(),
        root_path: "D:\\素材".to_string(),
        status,
        index_profile: IndexProfile::Balanced,
        include_patterns: vec!["**/*".to_string()],
        exclude_patterns: Vec::new(),
        watch_enabled: false,
        last_scan_at: None,
        created_at: 1,
        updated_at: 1,
    }
}

fn asset(media_type: MediaType, status: AssetStatus, fingerprint: &str) -> Asset {
    Asset {
        id: "asset-1".to_string(),
        library_id: "library-1".to_string(),
        media_type,
        file_path: "D:\\素材\\雨夜.mp4".to_string(),
        normalized_path: "D:\\素材\\雨夜.mp4".to_string(),
        file_name: "雨夜.mp4".to_string(),
        extension: "mp4".to_string(),
        size_bytes: 10,
        modified_at: 5,
        quick_fingerprint: fingerprint.to_string(),
        full_hash: Some("hash".to_string()),
        duration_ms: Some(2_000),
        width: Some(1920),
        height: Some(1080),
        frame_rate: None,
        codec: Some("h264".to_string()),
        capture_time: None,
        status,
        index_level: 1,
        analysis_version: 1,
        created_at: 1,
        updated_at: 2,
        thumbnail_data_url: None,
    }
}

fn other(message: &str) -> AppError {
    AppError::Other(message.to_string())
}

#[test]
fn entities_are_trimmed_and_blank_parts_dropped() {
    let request = CreateEntityRequest {
        entity_type: " character ".to_string(),
        name: "  雨夜角色 ".to_string(),
        description: Some("   ".to_string()),
        aliases: vec![" 主角 ".to_string(), "  ".to_string()],
    };
    let entity = new_entity(&request, "entity-1".to_string(), 9).expect("valid entity");
    assert_eq!(entity.id, "entity-1");
    assert_eq!(entity.entity_type, "character");
    assert_eq!(entity.name, "雨夜角色");
    assert_eq!(entity.description, None);
    assert_eq!(entity.aliases, vec!["主角"]);
    assert_eq!(entity.pack_id, None);
    assert_eq!((entity.created_at, entity.updated_at), (9, 9));
    assert_eq!(create_entity(&request, 9).expect("valid entity").id.len(), 36);
    let blank = CreateEntityRequest { name: "  ".to_string(), ..request };
    assert_eq!(new_entity(&blank, "e".to_string(), 9).unwrap_err(), other("实体名称和类型不能为空"));
}

#[test]
fn new_libraries_are_idle_with_default_patterns() {
    let request = CreateLibraryRequest {
        name: "素材库".to_string(),
        root_path: "D:/素材".to_string(),
        index_profile: None,
        include_patterns: None,
        exclude_patterns: None,
    };
    let created = new_library(&request, "D:\\素材".to_string(), "library-9".to_string(), 4);
    assert_eq!(created.root_path, "D:\\素材");
    assert_eq!(created.status, LibraryStatus::Idle);
    assert_eq!(created.index_profile, IndexProfile::Balanced);
    assert_eq!(created.include_patterns, vec!["**/*"]);
    assert_eq!(created.exclude_patterns, vec!["**/.*", "**/Thumbs.db", "**/.DS_Store"]);
    assert!(!created.watch_enabled);
    assert_eq!(created.last_scan_at, None);
    let custom = CreateLibraryRequest {
        index_profile: Some(IndexProfile::Precise),
        include_patterns: Some(vec!["**/*.mp4".to_string()]),
        ..request
    };
    let created = new_library(&custom, "D:\\素材".to_string(), "library-9".to_string(), 4);
    assert_eq!(created.index_profile, IndexProfile::Precise);
    assert_eq!(created.include_patterns, vec!["**/*.mp4"]);
}

#[test]
fn scans_are_queued_unless_the_library_is_scanning() {
    let job = new_scan_job(&library(LibraryStatus::Idle), "job-1".to_string(), 7).expect("idle library");
    assert_eq!(job.id, "job-1");
    assert_eq!(job.job_type, JobType::Scan);
    assert_eq!(job.library_id.as_deref(), Some("library-1"));
    assert_eq!(job.status, JobStatus::Pending);
    assert_eq!(job.priority, 10);
    assert_eq!(job.current_step, "等待扫描");
    assert_eq!((job.created_at, job.updated_at, job.started_at), (7, 7, None));
    assert_eq!(scan_job(&library(LibraryStatus::Paused), 7).expect("paused library").id.len(), 36);
    assert_eq!(
        new_scan_job(&library(LibraryStatus::Scanning), "job-2".to_string(), 7).unwrap_err(),
        other("素材库正在扫描中")
    );
}

#[test]
fn scan_jobs_need_a_library_and_report_their_steps() {
    let mut job: Job = new_scan_job(&library(LibraryStatus::Idle), "job-1".to_string(), 7).expect("idle library");
    assert_eq!(scan_target(&job), Ok("library-1".to_string()));
    job.library_id = None;
    assert_eq!(scan_target(&job), Err(other("扫描任务缺少素材库 ID")));
    assert_eq!(total_step(12), "发现 12 个文件");
    assert_eq!(scan_step("雨夜.png"), "扫描: 雨夜.png");
}

#[test]
fn reconnecting_is_refused_while_scanning_and_rebases_files() {
    assert_eq!(reconnect_allowed(&library(LibraryStatus::Idle)), Ok(()));
    assert_eq!(
        reconnect_allowed(&library(LibraryStatus::Scanning)),
        Err(other("素材库正在扫描中，无法重新连接"))
    );
    assert_eq!(duplicate_path_error(), other("新素材库中存在无法安全区分的重复路径"));
    let offline = asset(MediaType::Video, AssetStatus::Offline, "old");
    let moved = rebased_asset(&offline, "E:\\新\\雨夜.mp4".to_string(), "E:\\新\\雨夜.mp4".to_string(), "雨夜.mp4".to_string(), 11, 6, 20);
    assert_eq!(moved.id, offline.id);
    assert_eq!(moved.file_path, "E:\\新\\雨夜.mp4");
    assert_eq!(moved.quick_fingerprint, "E:\\新\\雨夜.mp4|11|6");
    assert_eq!(moved.status, AssetStatus::Indexed);
    assert_eq!((moved.size_bytes, moved.modified_at, moved.updated_at), (11, 6, 20));
    assert_eq!(moved.full_hash, offline.full_hash);
    let failed = asset(MediaType::Video, AssetStatus::Failed, "old");
    assert_eq!(rebased_asset(&failed, "p".to_string(), "p".to_string(), "p".to_string(), 1, 1, 1).status, AssetStatus::Failed);
    assert_eq!(appended_position(3), 3);
}

#[test]
fn known_files_are_skipped_restored_or_analysed() {
    let fingerprint = "D:\\素材\\雨夜.mp4|10|5";
    assert_eq!(classify_file(&None, fingerprint), FileAction::Analyse);
    assert_eq!(classify_file(&Some(asset(MediaType::Video, AssetStatus::Indexed, fingerprint)), fingerprint), FileAction::Unchanged);
    assert_eq!(classify_file(&Some(asset(MediaType::Video, AssetStatus::Offline, fingerprint)), fingerprint), FileAction::Analyse);
    assert_eq!(classify_file(&Some(asset(MediaType::Video, AssetStatus::Indexed, "old")), fingerprint), FileAction::Analyse);
    assert_eq!(classify_file(&Some(asset(MediaType::Video, AssetStatus::Failed, fingerprint)), fingerprint), FileAction::Analyse);
    let restored = restored_asset(&asset(MediaType::Video, AssetStatus::Offline, fingerprint), 30);
    assert_eq!((restored.status, restored.updated_at), (AssetStatus::Indexed, 30));
}

#[test]
fn visual_features_come_from_images_or_video_covers() {
    assert_eq!(embedding_source(MediaType::Image, "D:/a.png", None), Some("D:/a.png".to_string()));
    assert_eq!(embedding_source(MediaType::Video, "D:/a.mp4", Some("cover.jpg".to_string())), Some("cover.jpg".to_string()));
    assert_eq!(embedding_source(MediaType::Audio, "D:/a.mp3", Some("cover.jpg".to_string())), None);
}

#[test]
fn cache_files_are_named_after_the_asset() {
    let cache = CacheManager::new("/data/cache");
    assert_eq!(cache.root(), "/data/cache");
    assert_eq!(cache.thumbnail_path("a1", "cover"), "/data/cache/thumbnails/a1_cover.jpg");
    assert_eq!(cache.proxy_path("a1"), "/data/cache/proxies/a1.mp4");
    assert_eq!(cache.segment_preview_path("a1", 2), "/data/cache/proxies/a1_2.mp4");
    assert_eq!(cache.keyframe_path("a1", -1), "/data/cache/keyframes/a1_-1.jpg");
    assert_eq!(cache.models_path(), "/data/cache/models");
    assert_eq!(cache.directory("waveforms"), "/data/cache/waveforms");
    let trailing = CacheManager::new("/data/cache/");
    assert_eq!(trailing.thumbnail_path("a1", "cover"), "/data/cache/thumbnails/a1_cover.jpg");
    assert_eq!(CacheManager::subdirectories(), vec!["thumbnails", "proxies", "keyframes", "waveforms", "models"]);
    assert_eq!(CacheManager::derivative_directories(), vec!["thumbnails", "proxies", "keyframes", "waveforms"]);
    assert!(ThumbnailService::is_derivative_of("a1_cover.jpg", "a1"));
    assert!(ThumbnailService::is_derivative_of("a1.mp4", "a1"));
    assert!(!ThumbnailService::is_derivative_of("a10_cover.jpg", "a1"));
    assert_eq!(ThumbnailService::new(cache.clone()).cover_path("a1"), cache.thumbnail_path("a1", "cover"));
}

#[test]
fn the_semantic_model_is_ready_only_when_complete() {
    let vision = Some(vec!["preprocessor_config.json".to_string(), "model.onnx".to_string()]);
    let text = Some(
        ["model.onnx", "tokenizer.json", "config.json", "special_tokens_map.json", "tokenizer_config.json"]
            .iter()
            .map(|name| name.to_string())
            .collect::<Vec<_>>(),
    );
    let ready = status(true, &vision, &text, true);
    assert!(ready.ready && ready.model_installed && ready.runtime_available);
    assert_eq!(ready.provider_id, "local-clip-vit-b32");
    assert_eq!(ready.message, "本地 CLIP 模型已就绪；可重新建立语义向量索引");
    let incomplete = status(true, &vision, &Some(vec!["model.onnx".to_string()]), true);
    assert!(!incomplete.ready && !incomplete.model_installed);
    assert_eq!(incomplete.message, "模型未完整安装或文件已被移除；点击下载后才会访问网络，核心本地流程不受影响");
    assert!(!status(false, &vision, &text, true).model_installed);
    assert!(!status(true, &None, &text, true).model_installed);
    let no_runtime = status(true, &vision, &text, false);
    assert!(no_runtime.model_installed && !no_runtime.ready);
    assert_eq!(no_runtime.message, "未检测到随应用分发的 ONNX Runtime；关键词和颜色检索仍可用");
}

#[test]
fn semantic_sources_and_counts() {
    let cache = CacheManager::new("/data/cache");
    let video = asset(MediaType::Video, AssetStatus::Indexed, "fp");
    assert_eq!(semantic_source(&video, &cache), Some("/data/cache/thumbnails/asset-1_cover.jpg".to_string()));
    assert_eq!(semantic_source(&asset(MediaType::Audio, AssetStatus::Indexed, "fp"), &cache), None);
    let reference = EntityReference {
        id: "r".to_string(),
        entity_id: "e".to_string(),
        asset_id: Some("asset-1".to_string()),
        image_path: None,
        is_positive: true,
        created_at: 1,
    };
    assert_eq!(
        reference_source(&reference, &Some(asset(MediaType::Image, AssetStatus::Indexed, "fp")), &cache),
        Some("D:\\素材\\雨夜.mp4".to_string())
    );
    let with_image = EntityReference { image_path: Some("D:/ref.png".to_string()), ..reference.clone() };
    assert_eq!(reference_source(&with_image, &None, &cache), Some("D:/ref.png".to_string()));
    assert_eq!(reference_source(&EntityReference { asset_id: None, ..reference }, &None, &cache), None);
    let mut counts = SemanticIndexResult::new();
    counts.record_asset(IndexOutcome::Indexed);
    counts.record_asset(IndexOutcome::Skipped);
    counts.record_asset(IndexOutcome::Indexed);
    counts.record_reference(IndexOutcome::Failed);
    assert_eq!((counts.indexed, counts.skipped, counts.failed), (2, 1, 0));
    assert_eq!(
        (counts.entity_references_indexed, counts.entity_references_skipped, counts.entity_references_failed),
        (0, 0, 1)
    );
}

#[test]
fn probe_helpers_pick_the_first_usable_value() {
    assert_eq!(first_video_stream(&vec![Some("audio".to_string()), None, Some("video".to_string())]), Some(2));
    assert_eq!(first_video_stream(&vec![Some("audio".to_string())]), None);
    assert_eq!(ascii_field_text(&Some("  2024:05:06 15:08:09 ".to_string())), Some("2024:05:06 15:08:09".to_string()));
    assert_eq!(ascii_field_text(&Some("   ".to_string())), None);
    let pairs = vec![
        (Some("2024:05:06 15:08:09".to_string()), None),
        (Some("2024:05:06 15:08:09".to_string()), Some("+08:00".to_string())),
    ];
    assert_eq!(exif_capture_time(&pairs), Some(1_714_979_289_000));
    assert_eq!(exif_capture_time(&vec![(None, Some("+08:00".to_string()))]), None);
}

fn repository(files: &[&str]) -> Option<Vec<String>> {
    Some(files.iter().map(|file| file.to_string()).collect())
}

#[test]
fn missing_runtime_and_model_is_an_explicit_degraded_state() {
    let current = status(false, &None, &None, false);
    assert!(!current.ready);
    assert!(!current.model_installed);
    assert_eq!(current.provider_id, "local-clip-vit-b32");
}

#[test]
fn marker_is_not_enough_when_a_paired_model_file_is_missing() {
    let vision = repository(&["model.onnx", "preprocessor_config.json"]);
    let text = repository(&["model.onnx", "tokenizer.json", "config.json", "special_tokens_map.json", "tokenizer_config.json"]);
    assert!(status(true, &vision, &text, true).model_installed);
    let text_without_tokenizer = repository(&["model.onnx", "config.json", "special_tokens_map.json", "tokenizer_config.json"]);
    assert!(!status(true, &vision, &text_without_tokenizer, true).model_installed);
}
