use sceneweaver::cache::CacheManager;
use sceneweaver::export::{
    asset_record, assets_fcpxml, contact_sheet_html, select_items_csv, select_items_fcpxml, select_record,
    thumbnail_data_uri, thumbnail_source,
};
use sceneweaver::models::{Asset, AssetStatus, FrameRate, MediaType, Segment, SelectItem};

fn asset(id: &str, name: &str, path: &str, media_type: MediaType, duration_ms: Option<i64>, frame_rate: Option<FrameRate>) -> Asset {
    Asset {
        id: id.to_string(),
        library_id: "library-1".to_string(),
        media_type,
        file_path: path.to_string(),
        normalized_path: path.to_string(),
        file_name: name.to_string(),
        extension: "mp4".to_string(),
        size_bytes: 1,
        modified_at: 1,
        quick_fingerprint: "fp".to_string(),
        full_hash: None,
        duration_ms,
        width: None,
        height: None,
        frame_rate,
        codec: None,
        capture_time: None,
        status: AssetStatus::Indexed,
        index_level: 1,
        analysis_version: 1,
        created_at: 1,
        updated_at: 1,
        thumbnail_data_url: None,
    }
}

fn segment(start_ms: i64, end_ms: i64, thumbnail: Option<&str>) -> Segment {
    Segment {
        id: "segment-1".to_string(),
        asset_id: "a".to_string(),
        segment_type: "shot".to_string(),
        segment_index: 0,
        start_ms,
        end_ms,
        duration_ms: end_ms - start_ms,
        representative_frame_path: None,
        thumbnail_path: thumbnail.map(str::to_string),
        thumbnail_data_url: None,
        preview_path: None,
        subtitle_present: None,
        game_ui: None,
        embedding_ref: None,
        created_at: 1,
        updated_at: 1,
    }
}

fn item(a: Asset, seg: Option<Segment>, rating: Option<i32>, note: Option<&str>) -> SelectItem {
    SelectItem {
        id: "item".to_string(),
        collection_id: "collection".to_string(),
        asset_id: a.id.clone(),
        segment_id: seg.as_ref().map(|s| s.id.clone()),
        position: 0,
        rating,
        note: note.map(str::to_string),
        recommended_in_ms: None,
        recommended_out_ms: None,
        created_at: 1,
        updated_at: 1,
        asset: a,
        segment: seg,
    }
}

#[test]
fn fcpxml_lists_resources_then_the_spine() {
    let video = asset("a", "镜头 01.mp4", "C:\\素材\\镜头 01.mp4", MediaType::Video, Some(2_000), Some(FrameRate::Ntsc30));
    let audio = asset("b", "bgm.wav", "C:/a/bgm.wav", MediaType::Audio, Some(1_500), None);
    let expected = [
        "<?xml version=\"1.0\" encoding=\"UTF-8\"?>\n<fcpxml version=\"1.10\"><resources><format id=\"format-timeline\" frameDuration=\"1001/30000s\" width=\"1920\" height=\"1080\"/>\n",
        "<format id=\"format-asset-1\" frameDuration=\"1001/30000s\" width=\"1920\" height=\"1080\"/>\n",
        "<asset id=\"asset-1\" name=\"镜头 01.mp4\" src=\"file:///C:/%E7%B4%A0%E6%9D%90/%E9%95%9C%E5%A4%B4%2001.mp4\" start=\"0s\" duration=\"2000/1000s\" format=\"format-asset-1\" hasVideo=\"1\" hasAudio=\"1\"/>\n",
        "<asset id=\"asset-2\" name=\"bgm.wav\" src=\"file:///C:/a/bgm.wav\" start=\"0s\" duration=\"1500/1000s\" hasAudio=\"1\"/>\n",
        "</resources><library><event name=\"SceneWeaver\"><project name=\"SceneWeaver Selects\"><sequence duration=\"3500/1000s\" format=\"format-timeline\"><spine>\n",
        "<asset-clip ref=\"asset-1\" name=\"镜头 01.mp4\" offset=\"0/1000s\" start=\"0s\" duration=\"2000/1000s\"/>\n",
        "<asset-clip ref=\"asset-2\" name=\"bgm.wav\" offset=\"2000/1000s\" start=\"0s\" duration=\"1500/1000s\"/>\n",
        "</spine></sequence></project></event></library></fcpxml>\n",
    ]
    .concat();
    assert_eq!(assets_fcpxml(&vec![video, audio]), expected);
}

#[test]
fn select_fcpxml_uses_each_items_range() {
    let video = asset("a", "a.mp4", "/m/a.mp4", MediaType::Video, Some(10_000), Some(FrameRate::Whole(25)));
    let image = asset("c", "c.png", "/m/c.png", MediaType::Image, None, None);
    let document = select_items_fcpxml(&vec![item(video, Some(segment(1_000, 4_000, None)), None, None), item(image, None, None, None)]);
    assert!(document.contains("<format id=\"format-timeline\" frameDuration=\"1/25s\""));
    assert!(document.contains("<asset id=\"asset-1\" name=\"a.mp4\" src=\"file:////m/a.mp4\" start=\"0s\" duration=\"10000/1000s\" format=\"format-asset-1\""));
    assert!(document.contains("<format id=\"format-asset-2\" frameDuration=\"1/30s\" width=\"1920\" height=\"1080\"/>"));
    assert!(document.contains("<asset id=\"asset-2\" name=\"c.png\" src=\"file:////m/c.png\" start=\"0s\" duration=\"1/1000s\" format=\"format-asset-2\" hasVideo=\"1\"/>"));
    assert!(document.contains("<sequence duration=\"3001/1000s\""));
    assert!(document.contains("<asset-clip ref=\"asset-1\" name=\"a.mp4\" offset=\"0/1000s\" start=\"1000/1000s\" duration=\"3000/1000s\"/>"));
    assert!(document.contains("<asset-clip ref=\"asset-2\" name=\"c.png\" offset=\"3000/1000s\" start=\"0/1000s\" duration=\"1/1000s\"/>"));
}

#[test]
fn select_csv_has_ranges_ratings_and_notes() {
    let a = asset("a", "a.mp4", "/m/a.mp4", MediaType::Video, Some(10_000), None);
    let b = asset("b", "b\"x.wav", "/m/b.wav", MediaType::Audio, Some(1_500), None);
    let csv = select_items_csv(&vec![item(a, Some(segment(1_000, 3_500, None)), Some(4), Some("开场")), item(b, None, None, None)]);
    assert_eq!(
        csv,
        [
            "file_name,file_path,media_type,start_timecode,end_timecode,rating,note\r\n",
            "\"a.mp4\",\"/m/a.mp4\",video,00:00:01.000,00:00:03.500,4,\"开场\"\r\n",
            "\"b\"\"x.wav\",\"/m/b.wav\",audio,00:00:00.000,00:00:01.500,,\"\"\r\n",
        ]
        .concat()
    );
}

#[test]
fn json_records_carry_the_exported_range() {
    let a = asset("a", "a.mp4", "/m/a.mp4", MediaType::Video, Some(61_000), None);
    let record = asset_record(&a);
    assert_eq!(record.duration_ms, Some(61_000));
    assert_eq!((record.start_timecode.as_str(), record.end_timecode.as_str()), ("00:00:00.000", "00:01:01.000"));
    let selected = select_record(&item(a, Some(segment(2_000, 1_000, None)), Some(5), None));
    assert_eq!((selected.start_ms, selected.end_ms), (2_000, 2_000));
    assert_eq!(selected.media_type, "video");
    assert_eq!((selected.rating, selected.note), (Some(5), None));
}

#[test]
fn contact_sheets_embed_thumbnails_and_escape_text() {
    let cache = CacheManager::new("/cache");
    let with_segment = item(
        asset("a", "<雨夜>.mp4", "/m/a&b.mp4", MediaType::Video, Some(10_000), None),
        Some(segment(0, 2_000, Some("/cache/keyframes/a_0.jpg"))),
        Some(3),
        Some("  "),
    );
    let plain = item(asset("b", "b.png", "/m/b.png", MediaType::Image, None, None), None, None, Some("好"));
    assert_eq!(thumbnail_source(&with_segment, &cache), "/cache/keyframes/a_0.jpg");
    assert_eq!(thumbnail_source(&plain, &cache), "/cache/thumbnails/b_cover.jpg");
    assert_eq!(thumbnail_data_uri("/cache/x.PNG", b"M"), Some("data:image/png;base64,TQ==".to_string()));
    assert_eq!(thumbnail_data_uri("/cache/noextension", b"M"), None);
    let html = contact_sheet_html(&vec![with_segment, plain], &vec![Some("data:image/jpeg;base64,TQ==".to_string()), None]);
    assert!(html.starts_with("<!doctype html><html lang=\"zh-CN\">"));
    assert!(html.contains("<p class=\"summary\">共 2 条 · "));
    assert!(html.contains("<img class=\"thumb\" src=\"data:image/jpeg;base64,TQ==\" alt=\"&lt;雨夜&gt;.mp4\">"));
    assert!(html.contains("<p class=\"name\">#01 &lt;雨夜&gt;.mp4</p><p class=\"meta\"><span class=\"label\">范围：</span>00:00:00.000 — 00:00:02.000</p>"));
    assert!(html.contains("<span class=\"label\">路径：</span>/m/a&amp;b.mp4</p>"));
    assert!(html.contains("<span class=\"label\">评分：</span>3/5</p>"));
    assert!(html.contains("<div class=\"thumb missing\">缩略图不可用</div>"));
    assert!(html.contains("<p class=\"name\">#02 b.png</p>"));
    assert!(html.contains("<span class=\"label\">备注：</span>好</p>"));
    assert_eq!(html.matches("备注：").count(), 1);
    assert!(html.ends_with("</main></body></html>\n"));
}
