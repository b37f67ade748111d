use sceneweaver::errors::AppError;
use sceneweaver::models::{CreateSelectCollectionRequest, UpdateSelectItemRequest};
use sceneweaver::probe::{capture_time_from_tags, parse_capture_time, parse_exif_timestamp, tag_value};
use sceneweaver::requests::{new_select_collection, preview_data_url, segment_thumbnail_data_url, validate_update_request};
use sceneweaver::video::{
    build_segments, ffmpeg_failure, format_seconds, keyframe_args, last_line, likely_game_ui, likely_subtitle,
    preview_args, preview_duration_ms, representative_timestamp_ms, scene_timestamp_fields, shot_spans,
};

fn parse_scene_timestamps(output: &str) -> Vec<i64> {
    scene_timestamp_fields(output)
        .into_iter()
        .filter_map(|value| value.parse::<f64>().ok())
        .map(|seconds| (seconds * 1000.0).round() as i64)
        .take(500)
        .collect()
}

#[test]
fn caps_preview_and_keeps_short_shots_playable() {
    assert_eq!(preview_duration_ms(10_000), 6_000);
    assert_eq!(preview_duration_ms(100), 250);
}

#[test]
fn chooses_a_frame_inside_the_segment() {
    assert_eq!(representative_timestamp_ms(4_000, 8_000), 5_000);
    assert_eq!(representative_timestamp_ms(4_000, 300), 4_150);
}

#[test]
fn ffmpeg_arguments_never_require_a_shell() {
    let keyframe = keyframe_args(1_250, "C:/cache/中文 frame.jpg");
    let preview = preview_args(2_000, 10_000, "C:/cache/中文 preview.mp4");
    assert_eq!(keyframe[0..2], ["-ss", "1.250"]);
    assert!(preview.windows(2).any(|pair| pair == ["-t", "6.000"]));
    assert_eq!(preview.last().map(String::as_str), Some("C:/cache/中文 preview.mp4"));
}

#[test]
fn parses_ffmpeg_scene_timestamps() {
    assert_eq!(
        parse_scene_timestamps("[Parsed_showinfo] pts_time:1.250 foo\npts_time:3.0"),
        vec![1250, 3000]
    );
}

#[test]
fn removes_too_close_boundaries_and_closes_final_segment() {
    let segments = build_segments("asset", 5000, &vec![100, 1000, 1200, 4000], 0);
    assert_eq!(segments.len(), 3);
    assert_eq!((segments[0].start_ms, segments[0].end_ms), (0, 1000));
    assert_eq!((segments[2].start_ms, segments[2].end_ms), (4000, 5000));
}

#[test]
fn detects_only_two_corner_hud_shapes() {
    let mut image = image::GrayImage::new(64, 48);
    for y in 32..38 {
        for x in 2..10 {
            image.put_pixel(x, y, image::Luma([255]));
        }
        for x in 54..62 {
            image.put_pixel(x, y, image::Luma([255]));
        }
    }
    assert!(likely_game_ui(&image.as_raw().to_vec(), 64, 48));

    let mut single_corner = image::GrayImage::new(64, 48);
    for y in 32..38 {
        for x in 2..10 {
            single_corner.put_pixel(x, y, image::Luma([255]));
        }
    }
    assert!(!likely_game_ui(&single_corner.as_raw().to_vec(), 64, 48));
}

#[test]
fn subtitle_heuristic_requires_a_small_lower_high_contrast_cluster() {
    let mut subtitle_frame = image::GrayImage::from_pixel(120, 80, image::Luma([0]));
    for y in 62..66 {
        for x in 20..100 {
            subtitle_frame.put_pixel(x, y, image::Luma([255]));
        }
    }
    assert!(likely_subtitle(&subtitle_frame.as_raw().to_vec(), 120, 80));
    let black = image::GrayImage::from_pixel(120, 80, image::Luma([0]));
    assert!(!likely_subtitle(&black.as_raw().to_vec(), 120, 80));
}

#[test]
fn shots_cover_the_video_without_gaps() {
    let spans = shot_spans(5000, &vec![100, 1000, 1200, 4000]);
    assert_eq!(spans, vec![(0, 1000), (1000, 4000), (4000, 5000)]);
    for pair in spans.windows(2) {
        assert_eq!(pair[0].1, pair[1].0);
    }
    let whole = build_segments("a", 0, &vec![], 7);
    assert_eq!(whole.len(), 1);
    assert_eq!((whole[0].start_ms, whole[0].end_ms, whole[0].duration_ms), (0, 1, 1));
    assert_eq!(whole[0].segment_type, "whole_asset");
    assert_eq!(whole[0].id.len(), 36);
    assert_eq!(shot_spans(10_000, &vec![20_000, -5]), vec![(0, 10_000)]);
}

#[test]
fn seconds_keep_three_decimals() {
    assert_eq!(format_seconds(0), "0.000");
    assert_eq!(format_seconds(-20), "0.000");
    assert_eq!(format_seconds(61_005), "61.005");
    assert_eq!(representative_timestamp_ms(i64::MAX - 10, 100), i64::MAX);
}

#[test]
fn scene_fields_take_the_first_word_after_the_marker() {
    assert_eq!(
        scene_timestamp_fields("x pts_time:  2.5\tz\r\nno marker\npts_time:\n a pts_time:7 pts_time:8"),
        vec!["2.5".to_string(), "7".to_string()]
    );
}

#[test]
fn ffmpeg_failures_report_the_last_log_line() {
    assert_eq!(last_line("a\nb\r\n"), Some("b".to_string()));
    assert_eq!(last_line(""), None);
    assert_eq!(
        ffmpeg_failure("one\ntwo"),
        AppError::Other("FFmpeg 生成视频预览失败: two".to_string())
    );
    assert_eq!(
        ffmpeg_failure(""),
        AppError::Other("FFmpeg 生成视频预览失败: 未知 FFmpeg 错误".to_string())
    );
}

#[test]
fn accepts_valid_select_annotation() {
    let request = UpdateSelectItemRequest {
        rating: Some(5),
        note: Some("保留".to_string()),
        recommended_in_ms: Some(100),
        recommended_out_ms: Some(1_000),
    };
    assert!(validate_update_request(&request).is_ok());
}

#[test]
fn rejects_invalid_select_annotation() {
    let rating = UpdateSelectItemRequest {
        rating: Some(6),
        note: None,
        recommended_in_ms: None,
        recommended_out_ms: None,
    };
    let range = UpdateSelectItemRequest {
        rating: None,
        note: None,
        recommended_in_ms: Some(1_000),
        recommended_out_ms: Some(100),
    };
    assert!(validate_update_request(&rating).is_err());
    assert!(validate_update_request(&range).is_err());
}

#[test]
fn annotation_errors_name_the_failed_rule() {
    let both = UpdateSelectItemRequest { rating: Some(-1), note: None, recommended_in_ms: Some(5), recommended_out_ms: Some(5) };
    assert_eq!(validate_update_request(&both), Err(AppError::Other("评分必须在 0 到 5 之间".to_string())));
    let negative = UpdateSelectItemRequest { rating: None, note: None, recommended_in_ms: Some(-1), recommended_out_ms: None };
    assert_eq!(validate_update_request(&negative), Err(AppError::Other("推荐入点必须早于推荐出点".to_string())));
}

#[test]
fn collection_names_are_trimmed_and_limited() {
    let ok = CreateSelectCollectionRequest { name: "  夜景 ".to_string(), description: Some("  ".to_string()) };
    let c = new_select_collection(&ok, "id".to_string(), 3).unwrap();
    assert_eq!(c.name, "夜景");
    assert_eq!(c.description, None);
    let long = CreateSelectCollectionRequest { name: "长".repeat(81), description: None };
    assert!(new_select_collection(&long, "id".to_string(), 3).is_err());
}

#[test]
fn inline_media_is_limited_to_cached_files() {
    assert_eq!(
        preview_data_url("/c/p.mp4", true, &Some("mp4".to_string()), b"M"),
        Ok("data:video/mp4;base64,TQ==".to_string())
    );
    assert_eq!(
        preview_data_url("/x/p.mp4", false, &Some("mp4".to_string()), b"M"),
        Err(AppError::InvalidPath("/x/p.mp4".to_string()))
    );
    assert_eq!(segment_thumbnail_data_url(true, &Some("png".to_string()), b"M"), None);
    assert_eq!(segment_thumbnail_data_url(true, &Some("jpeg".to_string()), b"M"), Some("data:image/jpeg;base64,TQ==".to_string()));
}

#[test]
fn parses_exif_original_time_with_explicit_offset() {
    assert_eq!(parse_exif_timestamp("2024:05:06 15:08:09", "+08:00"), Some(1_714_979_289_000));
}

#[test]
fn rejects_exif_time_without_offset() {
    assert_eq!(parse_exif_timestamp("2024:05:06 15:08:09", ""), None);
}

#[test]
fn parses_rfc3339_capture_time_without_guessing_timezone() {
    assert_eq!(parse_capture_time("2024-05-06T07:08:09.123Z"), Some(1_714_979_289_123));
    assert_eq!(parse_capture_time("2024-05-06 07:08:09"), None);
}

#[test]
fn capture_time_comes_from_the_first_tag_set_that_has_one() {
    let format_tags = vec![("Creation_Time".to_string(), "not a date".to_string())];
    let stream_tags = vec![("com.apple.quicktime.creationdate".to_string(), " 2024-05-06T07:08:09.123Z ".to_string())];
    assert_eq!(tag_value(&format_tags, "creation_time"), Some("not a date".to_string()));
    assert_eq!(capture_time_from_tags(&vec![format_tags, stream_tags]), Some(1_714_979_289_123));
    assert_eq!(capture_time_from_tags(&vec![]), None);
}
