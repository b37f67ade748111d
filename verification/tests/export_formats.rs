use sceneweaver::errors::AppError;
use sceneweaver::export::{
    assets_csv, base64_encode, check_extension, contact_sheet_size, csv_escape, data_uri, edl_document,
    fcpx_duration, fcpx_frame_duration, fcpx_media_attributes, file_url, frames_to_edl_timecode, html_escape,
    require_extension, select_range, tile_origin, timecode, xml_escape, EdlClip,
};
use sceneweaver::models::{Asset, AssetStatus, FrameRate, MediaType, SelectItem};

fn asset(name: &str, path: &str, media_type: MediaType, duration_ms: Option<i64>) -> Asset {
    Asset {
        id: "asset-1".to_string(),
        library_id: "library-1".to_string(),
        media_type,
        file_path: path.to_string(),
        normalized_path: path.to_string(),
        file_name: name.to_string(),
        extension: "mp4".to_string(),
        size_bytes: 42,
        modified_at: 1000,
        quick_fingerprint: "fp".to_string(),
        full_hash: None,
        duration_ms,
        width: None,
        height: None,
        frame_rate: None,
        codec: None,
        capture_time: None,
        status: AssetStatus::Indexed,
        index_level: 1,
        analysis_version: 1,
        created_at: 1,
        updated_at: 1,
        thumbnail_data_url: None,
    }
}

fn item(a: Asset, recommended_in_ms: Option<i64>, recommended_out_ms: Option<i64>) -> SelectItem {
    SelectItem {
        id: "item-1".to_string(),
        collection_id: "collection-1".to_string(),
        asset_id: a.id.clone(),
        segment_id: None,
        position: 0,
        rating: Some(4),
        note: Some("好".to_string()),
        recommended_in_ms,
        recommended_out_ms,
        created_at: 1,
        updated_at: 1,
        asset: a,
        segment: None,
    }
}

#[test]
fn encodes_thumbnail_bytes_as_base64() {
    assert_eq!(base64_encode(b"Man"), "TWFu");
    assert_eq!(base64_encode(b"M"), "TQ==");
}

#[test]
fn formats_milliseconds_as_timecode() {
    assert_eq!(timecode(3_661_234), "01:01:01.234");
}

#[test]
fn escapes_csv_quotes() {
    assert_eq!(csv_escape("a,\"b\""), "\"a,\"\"b\"\"\"");
}

#[test]
fn formats_edl_timecode_at_thirty_fps() {
    assert_eq!(frames_to_edl_timecode(30 * 61 + 12), "00:01:01:12");
}

#[test]
fn escapes_fcpxml_values() {
    assert_eq!(xml_escape("A&B"), "A&amp;B");
}

#[test]
fn encodes_non_ascii_and_reserved_file_url_characters() {
    assert_eq!(
        file_url(r"C:\素材 库\雨夜#1%.mp4"),
        "file:///C:/%E7%B4%A0%E6%9D%90%20%E5%BA%93/%E9%9B%A8%E5%A4%9C%231%25.mp4"
    );
}

#[test]
fn preserves_common_ntsc_frame_durations_for_fcpxml() {
    assert_eq!(fcpx_frame_duration(FrameRate::Ntsc24), "1001/24000s");
    assert_eq!(fcpx_frame_duration(FrameRate::Ntsc30), "1001/30000s");
    assert_eq!(fcpx_frame_duration(FrameRate::Ntsc60), "1001/60000s");
    assert_eq!(fcpx_frame_duration(FrameRate::Whole(25)), "1/25s");
}

#[test]
fn base64_pads_two_byte_groups_and_keeps_lengths() {
    assert_eq!(base64_encode(b"Ma"), "TWE=");
    assert_eq!(base64_encode(b""), "");
    assert_eq!(base64_encode(b"hello world"), "aGVsbG8gd29ybGQ=");
    for n in 0..20usize {
        let bytes = vec![0xffu8; n];
        assert_eq!(base64_encode(&bytes).len(), 4 * ((n + 2) / 3));
    }
}

#[test]
fn negative_times_format_as_zero() {
    assert_eq!(timecode(-5), "00:00:00.000");
    assert_eq!(frames_to_edl_timecode(-1), "00:00:00:00");
    assert_eq!(timecode(360_000_000), "100:00:00.000");
}

#[test]
fn markup_escape_removes_every_special_character() {
    let escaped = html_escape("<a href=\"x\">&</a>");
    assert_eq!(escaped, "&lt;a href=&quot;x&quot;&gt;&amp;&lt;/a&gt;");
    assert!(!escaped.contains('<') && !escaped.contains('>') && !escaped.contains('"'));
}

#[test]
fn file_urls_are_ascii_and_use_forward_slashes() {
    let url = file_url("D:\\片段\\a b.mov");
    assert!(url.is_ascii());
    assert!(!url.contains('\\'));
    assert_eq!(file_url("/tmp/x_y~z.mp4"), "file:////tmp/x_y~z.mp4");
}

#[test]
fn fcpx_values_clamp_negative_durations() {
    assert_eq!(fcpx_duration(-3), "0/1000s");
    assert_eq!(fcpx_duration(1500), "1500/1000s");
    assert_eq!(fcpx_media_attributes(MediaType::Audio), "hasAudio=\"1\"");
    assert_eq!(fcpx_media_attributes(MediaType::Image), "hasVideo=\"1\"");
    assert_eq!(fcpx_media_attributes(MediaType::Video), "hasVideo=\"1\" hasAudio=\"1\"");
}

#[test]
fn recommended_points_override_the_asset_range() {
    let a = asset("clip.mp4", "/m/clip.mp4", MediaType::Video, Some(10_000));
    assert_eq!(select_range(&item(a.clone(), Some(1_000), Some(3_000))), (1_000, 3_000));
    assert_eq!(select_range(&item(a.clone(), None, None)), (0, 10_000));
    assert_eq!(select_range(&item(a, Some(5_000), Some(2_000))), (5_000, 5_000));
}

#[test]
fn wrong_export_extension_is_refused() {
    assert_eq!(check_extension(Some("CSV".to_string()), "csv"), Ok(()));
    assert_eq!(
        check_extension(Some("txt".to_string()), "csv"),
        Err(AppError::Other("导出文件必须使用 .csv 扩展名".to_string()))
    );
    assert!(check_extension(None, "edl").is_err());
    assert_eq!(require_extension("C:\\exports\\selects.CSV", "csv"), Ok(()));
    assert_eq!(require_extension("/exports/timeline.fcpxml", "fcpxml"), Ok(()));
    assert!(require_extension("/exports/timeline.xml", "fcpxml").is_err());
}

#[test]
fn asset_csv_has_a_header_and_one_quoted_row_per_asset() {
    let a = asset("a\"b.mp4", "/m/a.mp4", MediaType::Video, Some(61_000));
    let csv = assets_csv(&vec![a]);
    assert_eq!(
        csv,
        "file_name,file_path,media_type,duration_ms,start_timecode,end_timecode\r\n\"a\"\"b.mp4\",\"/m/a.mp4\",video,61000,00:00:00.000,00:01:01.000\r\n"
    );
}

#[test]
fn edl_events_follow_each_other_on_the_record_timeline() {
    let clips = vec![
        EdlClip { name: "one".to_string(), source_in: 0, frames: 30 },
        EdlClip { name: "two".to_string(), source_in: 60, frames: 0 },
    ];
    let edl = edl_document(&clips);
    assert!(edl.starts_with("TITLE: SceneWeaver Selects\r\nFCM: NON-DROP FRAME\r\n\r\n"));
    assert!(edl.contains("001  AX       V     C        00:00:00:00 00:00:01:00 00:00:00:00 00:00:01:00\r\n* FROM CLIP NAME: one"));
    assert!(edl.contains("002  AX       V     C        00:00:02:00 00:00:02:01 00:00:01:00 00:00:01:01\r\n* FROM CLIP NAME: two"));
}

#[test]
fn data_uris_follow_the_thumbnail_extension() {
    assert_eq!(data_uri("PNG", b"M"), "data:image/png;base64,TQ==");
    assert_eq!(data_uri("webp", b"M"), "data:image/webp;base64,TQ==");
    assert_eq!(data_uri("jpg", b"M"), "data:image/jpeg;base64,TQ==");
}

#[test]
fn contact_sheet_layout_has_four_columns() {
    assert_eq!(contact_sheet_size(0), (1000, 166));
    assert_eq!(contact_sheet_size(5), (1000, 324));
    assert_eq!(tile_origin(5, 240, 100), (256, 191));
}
