use sceneweaver::errors::AppError;
use sceneweaver::models::{AssetStatus, IndexProfile, JobStatus, JobType, LibraryStatus, MediaType};

#[test]
fn every_persisted_name_reads_back_as_its_value() {
    for value in [MediaType::Image, MediaType::Video, MediaType::Audio] {
        assert_eq!(MediaType::parse(value.as_str()), Ok(value));
    }
    for value in [AssetStatus::Pending, AssetStatus::Indexed, AssetStatus::Failed, AssetStatus::Offline] {
        assert_eq!(AssetStatus::parse(value.as_str()), Ok(value));
    }
    for value in [
        JobStatus::Pending,
        JobStatus::Running,
        JobStatus::Paused,
        JobStatus::Completed,
        JobStatus::Failed,
        JobStatus::Cancelled,
    ] {
        assert_eq!(JobStatus::parse(value.as_str()), Ok(value));
    }
    for value in [JobType::Scan, JobType::Thumbnail, JobType::ShotDetect, JobType::Index] {
        assert_eq!(JobType::parse(value.as_str()), Ok(value));
    }
    for value in [LibraryStatus::Idle, LibraryStatus::Scanning, LibraryStatus::Paused, LibraryStatus::Failed] {
        assert_eq!(LibraryStatus::parse(value.as_str()), Ok(value));
    }
    for value in [IndexProfile::Quick, IndexProfile::Balanced, IndexProfile::Precise] {
        assert_eq!(IndexProfile::parse(value.as_str()), Ok(value));
    }
}

#[test]
fn persisted_names_are_the_stored_strings() {
    assert_eq!(AssetStatus::Failed.as_str(), "error");
    assert_eq!(LibraryStatus::Failed.as_str(), "error");
    assert_eq!(JobType::ShotDetect.as_str(), "shot_detect");
    assert_eq!(JobStatus::Cancelled.as_str(), "cancelled");
    assert_eq!(IndexProfile::Balanced.as_str(), "balanced");
}

#[test]
fn unknown_names_are_reported() {
    assert_eq!(MediaType::parse("gif"), Err("未知媒体类型: gif".to_string()));
    assert_eq!(AssetStatus::parse("Indexed"), Err("未知素材状态: Indexed".to_string()));
    assert_eq!(JobStatus::parse(""), Err("未知任务状态: ".to_string()));
    assert_eq!(JobType::parse("shot-detect"), Err("未知任务类型: shot-detect".to_string()));
    assert_eq!(LibraryStatus::parse("failed"), Err("未知素材库状态: failed".to_string()));
    assert_eq!(IndexProfile::parse("fast"), Err("未知索引模式: fast".to_string()));
}

#[test]
fn media_types_follow_the_extension_in_any_case() {
    assert_eq!(MediaType::from_extension("JPG"), MediaType::Image);
    assert_eq!(MediaType::from_extension("m2ts"), MediaType::Video);
    assert_eq!(MediaType::from_extension("flac"), MediaType::Audio);
    assert_eq!(MediaType::from_extension("unknown"), MediaType::Audio);
}

#[test]
fn error_messages_name_their_detail() {
    assert_eq!(AppError::InvalidPath("C:\\x".to_string()).message(), "路径不合法或存在目录穿越风险: C:\\x");
    assert_eq!(AppError::LibraryNotFound("l".to_string()).message(), "素材库不存在: l");
    assert_eq!(AppError::JobNotFound("j".to_string()).message(), "任务不存在: j");
    assert_eq!(AppError::AssetNotFound("a".to_string()).message(), "素材不存在: a");
    assert_eq!(AppError::Database("busy".to_string()).message(), "数据库错误: busy");
    assert_eq!(AppError::Io("denied".to_string()).message(), "IO 错误: denied");
    assert_eq!(AppError::Json("eof".to_string()).message(), "序列化错误: eof");
    assert_eq!(AppError::FfprobeUnavailable("missing".to_string()).message(), "ffprobe 不可用: missing");
    assert_eq!(AppError::Cancelled.message(), "任务已取消");
    assert_eq!(AppError::Paused.message(), "任务已暂停");
    assert_eq!(AppError::Other("自定义".to_string()).message(), "自定义");
}
