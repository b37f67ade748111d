use sceneweaver::search::{
    assets_matching_nonsemantic_filters, effective_must_terms, search_assets_with_conditions, search_pattern,
    SearchRequest, SqlParam,
};

const COLUMNS: &str = "SELECT id, library_id, media_type, file_path, normalized_path, file_name, extension, size_bytes, modified_at, quick_fingerprint, full_hash, duration_ms, width, height, fps, codec, capture_time, status, index_level, analysis_version, created_at, updated_at";
const TEXT_MATCH: &str = "(file_name LIKE ? ESCAPE '\\' OR file_path LIKE ? ESCAPE '\\' OR EXISTS (SELECT 1 FROM tags WHERE scope_type = 'asset' AND scope_id = assets.id AND namespace = 'acg_creator' AND value LIKE ? ESCAPE '\\'))";

fn request(raw: &str, must: &[&str], should: &[&str], must_not: &[&str], media: &[&str], quality: bool) -> SearchRequest {
    let owned = |terms: &[&str]| terms.iter().map(|term| term.to_string()).collect::<Vec<_>>();
    SearchRequest {
        raw_query: raw.to_string(),
        must: owned(must),
        should: owned(should),
        must_not: owned(must_not),
        media_types: owned(media),
        has_min_quality_score: quality,
    }
}

fn text(value: &str) -> SqlParam {
    SqlParam::Text(value.to_string())
}

#[test]
fn like_patterns_escape_wildcards_and_the_escape_character() {
    assert_eq!(search_pattern("雨夜"), "%雨夜%");
    assert_eq!(search_pattern("50%_a\\b"), "%50\\%\\_a\\\\b%");
}

#[test]
fn a_bare_query_becomes_the_single_must_term() {
    assert_eq!(effective_must_terms(&request("  雨夜 ", &[], &[], &[], &[], false)), vec!["雨夜"]);
    assert!(effective_must_terms(&request("雨夜", &[], &[], &["UI"], &[], false)).is_empty());
    assert_eq!(effective_must_terms(&request("雨夜 角色", &["角色"], &[], &[], &[], false)), vec!["角色"]);
    let query = search_assets_with_conditions(&request("雨夜", &[], &[], &[], &[], false), 100).expect("conditions");
    assert_eq!(
        query.sql,
        format!("{COLUMNS}, (0) AS relevance FROM assets WHERE status = 'indexed' AND {TEXT_MATCH} ORDER BY relevance DESC, modified_at DESC LIMIT ?")
    );
    assert_eq!(query.params, vec![text("%雨夜%"), text("%雨夜%"), text("%雨夜%"), SqlParam::Integer(100)]);
}

#[test]
fn a_request_without_conditions_runs_no_query() {
    assert!(search_assets_with_conditions(&request("   ", &[], &[], &[], &["video"], true), 100).is_none());
}

#[test]
fn structured_labels_filter_segments_and_text_terms_bind_patterns() {
    let req = request("字幕 角色 不要 UI 水印", &["字幕"], &["角色", "blur"], &["UI", "水印"], &["video", "image"], true);
    let query = search_assets_with_conditions(&req, 50).expect("conditions");
    let score = format!(
        "0 + CASE WHEN {TEXT_MATCH} THEN 1 ELSE 0 END + CASE WHEN EXISTS (SELECT 1 FROM segments WHERE segments.asset_id = assets.id AND segments.blur_score >= 0.80) THEN 1 ELSE 0 END"
    );
    assert_eq!(
        query.sql,
        format!(
            "{COLUMNS}, ({score}) AS relevance FROM assets WHERE status = 'indexed' AND media_type IN (?, ?) AND (media_type = 'image' OR EXISTS (SELECT 1 FROM segments WHERE segments.asset_id = assets.id AND quality_score >= ?)) AND EXISTS (SELECT 1 FROM segments WHERE segments.asset_id = assets.id AND segments.subtitle_present = 1 AND (segments.game_ui IS NULL OR segments.game_ui = 0)) AND NOT {TEXT_MATCH} ORDER BY relevance DESC, modified_at DESC LIMIT ?"
        )
    );
    assert_eq!(
        query.params,
        vec![
            text("%角色%"),
            text("%角色%"),
            text("%角色%"),
            text("video"),
            text("image"),
            SqlParam::MinQualityScore,
            text("%水印%"),
            text("%水印%"),
            text("%水印%"),
            SqlParam::Integer(50),
        ]
    );
}

#[test]
fn semantic_candidates_keep_every_hard_filter() {
    let req = request("字幕 不要 UI 水印", &["字幕", "雨夜"], &["角色"], &["UI", "水印"], &["video"], false);
    let query = assets_matching_nonsemantic_filters(&req, 500);
    assert_eq!(
        query.sql,
        format!(
            "{COLUMNS} FROM assets WHERE status = 'indexed' AND media_type IN (?) AND EXISTS (SELECT 1 FROM segments WHERE segments.asset_id = assets.id AND segments.subtitle_present = 1 AND (segments.game_ui IS NULL OR segments.game_ui = 0)) AND NOT {TEXT_MATCH} ORDER BY modified_at DESC LIMIT ?"
        )
    );
    assert_eq!(
        query.params,
        vec![text("video"), text("%水印%"), text("%水印%"), text("%水印%"), SqlParam::Integer(500)]
    );
}
