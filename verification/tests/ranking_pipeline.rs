use sceneweaver::models::{Asset, AssetStatus, MediaType};
use sceneweaver::ranking::{
    admit_candidates, apply_acg_tag_explanations, apply_entity_match_names, apply_segment_label_explanations,
    diversify_equal_score_results, explain_search_result, matching_segment_label, merge_unique_assets,
    rank_search_results, search_results, sorted_unique_names, visual_reason, Candidate, SearchResult,
};
use sceneweaver::search::{SearchRequest, SegmentFlags, SegmentLabel};

fn asset(id: &str, library_id: &str, name: &str, modified_at: i64) -> Asset {
    Asset {
        id: id.to_string(),
        library_id: library_id.to_string(),
        media_type: MediaType::Video,
        file_path: format!("D:/素材/{name}"),
        normalized_path: format!("D:\\素材\\{name}"),
        file_name: name.to_string(),
        extension: "mp4".to_string(),
        size_bytes: 1,
        modified_at,
        quick_fingerprint: "fp".to_string(),
        full_hash: None,
        duration_ms: Some(1_000),
        width: None,
        height: None,
        frame_rate: None,
        codec: None,
        capture_time: None,
        status: AssetStatus::Indexed,
        index_level: 1,
        analysis_version: 1,
        created_at: 1,
        updated_at: 1,
        thumbnail_data_url: None,
    }
}

fn request(raw: &str, must: &[&str], should: &[&str], must_not: &[&str]) -> SearchRequest {
    let owned = |terms: &[&str]| terms.iter().map(|term| term.to_string()).collect::<Vec<_>>();
    SearchRequest {
        raw_query: raw.to_string(),
        must: owned(must),
        should: owned(should),
        must_not: owned(must_not),
        media_types: Vec::new(),
        has_min_quality_score: false,
    }
}

fn result(id: &str, library_id: &str, score: i64, modified_at: i64) -> SearchResult {
    SearchResult {
        asset: asset(id, library_id, &format!("{id}.mp4"), modified_at),
        score,
        match_reasons: Vec::new(),
        unmet_should: Vec::new(),
        matching_segment_ids: Vec::new(),
    }
}

fn flags(subtitle: bool, game_ui: bool) -> SegmentFlags {
    SegmentFlags { subtitle, game_ui, black_frame: false, blurry: false }
}

#[test]
fn keyword_hits_are_explained_and_scored() {
    let req = request("雨夜 角色", &["雨夜"], &["角色", "侧脸"], &[]);
    let explained = explain_search_result(asset("a", "lib", "雨夜_角色.mp4", 1), &req, None);
    assert_eq!(explained.match_reasons, vec!["满足必须条件：雨夜", "命中偏好条件：角色"]);
    assert_eq!(explained.score, 3);
    assert_eq!(explained.unmet_should, vec!["侧脸"]);
    assert!(explained.matching_segment_ids.is_empty());
}

#[test]
fn unexplained_candidates_are_keyword_recalls_and_visual_hits_score_one() {
    let req = request("城市", &[], &[], &[]);
    let plain = explain_search_result(asset("a", "lib", "clip.mp4", 1), &req, None);
    assert_eq!(plain.match_reasons, vec!["按关键词召回"]);
    assert_eq!(plain.score, 0);
    let visual = explain_search_result(asset("b", "lib", "clip.mp4", 1), &req, Some("命中本地颜色视觉特征"));
    assert_eq!(visual.match_reasons, vec!["命中本地颜色视觉特征"]);
    assert_eq!(visual.score, 1);
}

#[test]
fn matching_is_case_insensitive_on_name_and_path() {
    let req = request("night", &["NIGHT"], &["素材"], &[]);
    let explained = explain_search_result(asset("a", "lib", "Night_Walk.mp4", 1), &req, None);
    assert_eq!(explained.match_reasons, vec!["满足必须条件：NIGHT", "命中偏好条件：素材"]);
    assert_eq!(explained.score, 3);
}

#[test]
fn acg_tags_satisfy_terms_the_file_name_misses() {
    let req = request("战斗 侧脸", &["战斗"], &["侧脸", "雨夜"], &[]);
    let mut explained = explain_search_result(asset("a", "lib", "雨夜.mp4", 1), &req, None);
    assert_eq!(explained.unmet_should, vec!["侧脸"]);
    apply_acg_tag_explanations(&mut explained, &req, &vec!["战斗场面".to_string(), "侧脸".to_string()]);
    assert_eq!(
        explained.match_reasons,
        vec!["命中偏好条件：雨夜", "满足必须条件：战斗（ACG 标签）", "命中偏好条件：侧脸（ACG 标签）"]
    );
    assert!(explained.unmet_should.is_empty());
    assert_eq!(explained.score, 1 + 2 + 1);
}

#[test]
fn segment_labels_explain_structured_terms() {
    let req = request("字幕 UI", &["字幕"], &["hud", "模糊"], &[]);
    let mut explained = explain_search_result(asset("a", "lib", "clip.mp4", 1), &req, None);
    assert_eq!(explained.unmet_should, vec!["hud", "模糊"]);
    apply_segment_label_explanations(&mut explained, &req, &vec![flags(false, true), flags(true, false)]);
    assert_eq!(
        explained.match_reasons,
        vec![
            "按关键词召回",
            "满足必须条件：字幕（本地字幕提示）",
            "命中偏好条件：hud（本地 HUD 提示（双下角高对比元素））",
        ]
    );
    assert_eq!(explained.unmet_should, vec!["模糊"]);
    assert_eq!(explained.score, 3);
    assert_eq!(matching_segment_label("subtitles", &vec![flags(true, false)]), Some(SegmentLabel::Subtitle));
    assert_eq!(matching_segment_label("subtitles", &vec![flags(false, true)]), None);
    assert_eq!(matching_segment_label("雨夜", &vec![flags(true, true)]), None);
}

#[test]
fn entity_names_are_sorted_once_and_add_one_point() {
    assert_eq!(
        sorted_unique_names(&vec!["乙".to_string(), "甲".to_string(), "乙".to_string()]),
        vec!["乙", "甲"]
    );
    let mut explained = result("a", "lib", 2, 1);
    apply_entity_match_names(&mut explained, &vec!["乙".to_string(), "甲".to_string(), "乙".to_string()]);
    assert_eq!(explained.match_reasons, vec!["命中实体参考：乙、甲"]);
    assert_eq!(explained.score, 3);
    let mut untouched = result("b", "lib", 2, 1);
    apply_entity_match_names(&mut untouched, &Vec::new());
    assert!(untouched.match_reasons.is_empty());
    assert_eq!(untouched.score, 2);
}

#[test]
fn results_rank_by_score_then_recency_then_id() {
    let ranked = rank_search_results(vec![
        result("c", "lib", 1, 5),
        result("b", "lib", 3, 1),
        result("a", "lib", 1, 5),
        result("d", "lib", 1, 9),
    ]);
    let ids = ranked.iter().map(|r| r.asset.id.as_str()).collect::<Vec<_>>();
    assert_eq!(ids, vec!["b", "d", "a", "c"]);
}

#[test]
fn tied_results_rotate_libraries_and_say_so() {
    let diversified = diversify_equal_score_results(vec![
        result("a1", "library-a", 5, 1),
        result("a2", "library-a", 2, 1),
        result("a3", "library-a", 2, 1),
        result("b1", "library-b", 2, 1),
    ]);
    let ids = diversified.iter().map(|r| r.asset.id.as_str()).collect::<Vec<_>>();
    assert_eq!(ids, vec!["a1", "a2", "b1", "a3"]);
    assert!(diversified[0].match_reasons.is_empty());
    for tied in &diversified[1..] {
        assert_eq!(tied.match_reasons, vec!["同分候选按素材库轮换，保留结果多样性"]);
    }
}

#[test]
fn tied_results_already_rotated_are_left_alone() {
    let diversified = diversify_equal_score_results(vec![
        result("a1", "library-a", 2, 1),
        result("b1", "library-b", 2, 1),
        result("a2", "library-a", 1, 1),
        result("a3", "library-a", 1, 1),
    ]);
    let ids = diversified.iter().map(|r| r.asset.id.as_str()).collect::<Vec<_>>();
    assert_eq!(ids, vec!["a1", "b1", "a2", "a3"]);
    assert!(diversified.iter().all(|r| r.match_reasons.is_empty()));
}

#[test]
fn only_allowed_new_candidates_are_admitted() {
    let mut assets = vec![asset("a", "lib", "a.mp4", 1)];
    let admitted = admit_candidates(
        &mut assets,
        vec![asset("b", "lib", "b.mp4", 1), asset("x", "lib", "x.mp4", 1), asset("a", "lib", "a.mp4", 1)],
        &vec!["a".to_string(), "b".to_string()],
    );
    assert_eq!(admitted, vec!["b", "a"]);
    let ids = assets.iter().map(|a| a.id.as_str()).collect::<Vec<_>>();
    assert_eq!(ids, vec!["a", "b"]);
}

#[test]
fn merging_keeps_the_first_copy_of_each_asset() {
    let mut assets = vec![asset("a", "lib", "a.mp4", 1)];
    merge_unique_assets(&mut assets, vec![asset("b", "lib", "b.mp4", 1), asset("a", "lib", "other.mp4", 1), asset("b", "lib", "c.mp4", 1)]);
    let names = assets.iter().map(|a| a.file_name.as_str()).collect::<Vec<_>>();
    assert_eq!(names, vec!["a.mp4", "b.mp4"]);
}

#[test]
fn semantic_hits_take_precedence_over_the_colour_fallback() {
    let semantic = vec!["a".to_string()];
    assert_eq!(visual_reason("a", &semantic, true), Some("命中本地 CLIP 图文语义向量"));
    assert_eq!(visual_reason("b", &semantic, true), Some("命中本地颜色视觉特征"));
    assert_eq!(visual_reason("b", &semantic, false), None);
}

fn candidate(a: Asset, entity_names: &[&str], acg_tags: &[&str], segments: Vec<SegmentFlags>) -> Candidate {
    Candidate {
        asset: a,
        entity_names: entity_names.iter().map(|name| name.to_string()).collect(),
        acg_tags: acg_tags.iter().map(|tag| tag.to_string()).collect(),
        segments,
    }
}

#[test]
fn search_results_explain_every_step_then_rank() {
    let req = request("雨夜 角色 字幕", &["雨夜"], &["角色", "字幕"], &[]);
    let candidates = vec![
        candidate(asset("c", "L1", "x.mp4", 1), &[], &[], Vec::new()),
        candidate(asset("a", "L1", "雨夜.mp4", 5), &["林", "阿", "林"], &[], vec![flags(true, false)]),
        candidate(asset("b", "L2", "other.mp4", 9), &[], &["角色"], Vec::new()),
    ];
    let semantic_ids = vec!["b".to_string()];
    let results = search_results(&req, candidates, &semantic_ids, false);
    let ids: Vec<&str> = results.iter().map(|r| r.asset.id.as_str()).collect();
    assert_eq!(ids, vec!["a", "b", "c"]);
    assert_eq!(
        results[0].match_reasons,
        vec!["满足必须条件：雨夜", "命中实体参考：林、阿", "命中偏好条件：字幕（本地字幕提示）"]
    );
    assert_eq!(results[0].score, 4);
    assert_eq!(results[0].unmet_should, vec!["角色"]);
    assert_eq!(results[1].match_reasons, vec!["命中本地 CLIP 图文语义向量", "命中偏好条件：角色（ACG 标签）"]);
    assert_eq!(results[1].score, 2);
    assert_eq!(results[1].unmet_should, vec!["字幕"]);
    assert_eq!(results[2].match_reasons, vec!["按关键词召回"]);
    assert_eq!(results[2].score, 0);
    assert_eq!(results[2].unmet_should, vec!["角色", "字幕"]);
}

#[test]
fn search_results_interleave_tied_candidates_by_library() {
    let req = request("城市", &[], &[], &[]);
    let candidates = vec![
        candidate(asset("x", "L1", "a.mp4", 3), &[], &[], Vec::new()),
        candidate(asset("y", "L1", "b.mp4", 2), &[], &[], Vec::new()),
        candidate(asset("z", "L2", "c.mp4", 1), &[], &[], Vec::new()),
    ];
    let results = search_results(&req, candidates, &Vec::new(), true);
    let ids: Vec<&str> = results.iter().map(|r| r.asset.id.as_str()).collect();
    assert_eq!(ids, vec!["x", "z", "y"]);
    for result in &results {
        assert_eq!(result.score, 1);
        assert_eq!(result.match_reasons, vec!["命中本地颜色视觉特征", "同分候选按素材库轮换，保留结果多样性"]);
    }
}
