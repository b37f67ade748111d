use sceneweaver::ranking::{diversity_order, tag_matches};
use sceneweaver::search::{segment_label_for_term, SegmentLabel};
use sceneweaver::semantic::{semantic_query_prompt, semantic_query_prompt_for_conditions};

#[test]
fn matches_acg_tags_case_insensitively() {
    let tags = vec!["Game UI".to_string(), "Pink Hair".to_string()];
    assert!(tag_matches(&tags, "pink hair"));
    assert!(tag_matches(&tags, "UI"));
    assert!(!tag_matches(&tags, "water"));
    assert!(!tag_matches(&tags, "   "));
}

#[test]
fn interleaves_same_score_candidates_by_library_without_dropping_any() {
    let libraries = vec!["library-a", "library-a", "library-b", "library-c"]
        .into_iter()
        .map(str::to_string)
        .collect::<Vec<_>>();
    assert_eq!(diversity_order(&libraries), vec![0, 2, 3, 1]);
}

#[test]
fn expands_known_chinese_creator_terms_and_rejects_unknown_han_only_input() {
    let prompt = semantic_query_prompt("角色雨夜回头的侧脸").unwrap();
    assert!(prompt.contains("character"));
    assert!(prompt.contains("rainy night"));
    assert!(prompt.contains("looking back"));
    assert!(semantic_query_prompt("不可识别的专有名词").is_none());
    assert_eq!(
        semantic_query_prompt("a red character"),
        Some("a red character".to_string())
    );
}

#[test]
fn exclusion_terms_do_not_enter_a_parsed_semantic_prompt() {
    let prompt = semantic_query_prompt_for_conditions(
        &vec!["战斗".to_string()],
        &vec!["近景".to_string(), "粉色头发".to_string()],
        "战斗 优先 近景、粉色头发 不要 游戏 UI、字幕",
    )
    .unwrap();
    assert!(prompt.contains("battle"));
    assert!(prompt.contains("close up"));
    assert!(prompt.contains("pink hair"));
    assert!(!prompt.contains("subtitles"));
    assert!(!prompt.contains("user interface"));
}

#[test]
fn semantic_prompt_phrases_are_sorted_and_deduplicated() {
    assert_eq!(
        semantic_query_prompt("  特写 近景 雨夜 ").as_deref(),
        Some("close up, rainy night")
    );
    assert_eq!(semantic_query_prompt("   "), None);
    assert_eq!(
        semantic_query_prompt_for_conditions(&vec![], &vec![], "  sunset beach "),
        Some("sunset beach".to_string())
    );
}

#[test]
fn diversity_rotates_libraries_in_first_seen_order() {
    let libraries = vec!["b", "a", "b", "b", "a"].into_iter().map(str::to_string).collect::<Vec<_>>();
    assert_eq!(diversity_order(&libraries), vec![0, 1, 2, 4, 3]);
    assert_eq!(diversity_order(&vec![]), Vec::<usize>::new());
}

#[test]
fn structured_labels_are_recognised_in_both_languages() {
    assert_eq!(segment_label_for_term(" 字幕 "), Some(SegmentLabel::Subtitle));
    assert_eq!(segment_label_for_term("Subtitles"), Some(SegmentLabel::Subtitle));
    assert_eq!(segment_label_for_term("雨夜"), None);
}
