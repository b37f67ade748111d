use sceneweaver::entities::{assets_matching_entity_terms, entities_matching_search_request, entity_terms};
use sceneweaver::models::{Asset, AssetStatus, Entity, MediaType};
use sceneweaver::search::SearchRequest;

fn entity(id: &str, name: &str, aliases: &[&str]) -> Entity {
    Entity {
        id: id.to_string(),
        entity_type: "character".to_string(),
        name: name.to_string(),
        description: None,
        aliases: aliases.iter().map(|alias| alias.to_string()).collect(),
        pack_id: None,
        created_at: 1,
        updated_at: 1,
    }
}

fn request(raw: &str, must: &[&str], should: &[&str], must_not: &[&str]) -> SearchRequest {
    let owned = |terms: &[&str]| terms.iter().map(|term| term.to_string()).collect::<Vec<_>>();
    SearchRequest {
        raw_query: raw.to_string(),
        must: owned(must),
        should: owned(should),
        must_not: owned(must_not),
        media_types: Vec::new(),
        has_min_quality_score: false,
    }
}

fn asset(id: &str, name: &str, path: &str) -> Asset {
    Asset {
        id: id.to_string(),
        library_id: "library-1".to_string(),
        media_type: MediaType::Image,
        file_path: path.to_string(),
        normalized_path: path.to_string(),
        file_name: name.to_string(),
        extension: "png".to_string(),
        size_bytes: 1,
        modified_at: 1,
        quick_fingerprint: "fp".to_string(),
        full_hash: None,
        duration_ms: None,
        width: None,
        height: None,
        frame_rate: None,
        codec: None,
        capture_time: None,
        status: AssetStatus::Indexed,
        index_level: 1,
        analysis_version: 1,
        created_at: 1,
        updated_at: 1,
        thumbnail_data_url: None,
    }
}

fn ids(entities: &[Entity]) -> Vec<&str> {
    entities.iter().map(|entity| entity.id.as_str()).collect()
}

#[test]
fn entities_are_named_by_terms_aliases_or_the_raw_query() {
    let entities = vec![
        entity("hero", "雨夜角色", &["Rain Girl"]),
        entity("rival", "黑衣人", &[]),
        entity("x", "X", &[]),
    ];
    let by_raw = entities_matching_search_request(&entities, &request("雨夜角色 回头", &[], &[], &[]));
    assert_eq!(ids(&by_raw), vec!["hero"]);
    let by_alias = entities_matching_search_request(&entities, &request("", &["  rain girl "], &[], &[]));
    assert_eq!(ids(&by_alias), vec!["hero"]);
    // A one-character name is matched only as a whole term, never inside the raw query.
    assert!(entities_matching_search_request(&entities, &request("x-ray", &[], &[], &[])).is_empty());
    assert_eq!(ids(&entities_matching_search_request(&entities, &request("", &[], &["x"], &[]))), vec!["x"]);
}

#[test]
fn must_not_terms_never_trigger_entity_recall() {
    let entities = vec![entity("hero", "雨夜角色", &[]), entity("rival", "黑衣人", &[])];
    let without = entities_matching_search_request(&entities, &request("雨夜角色 不要 黑衣人", &[], &[], &[]));
    assert_eq!(ids(&without), vec!["hero", "rival"]);
    let with = entities_matching_search_request(&entities, &request("雨夜角色 不要 黑衣人", &[], &[], &["黑衣人"]));
    assert!(with.is_empty());
    let positive = entities_matching_search_request(&entities, &request("雨夜角色 不要 黑衣人", &["雨夜角色"], &[], &["黑衣人"]));
    // The excluded name occurs in the raw text too, but never recalls its entity.
    assert_eq!(ids(&positive), vec!["hero"]);
    let elsewhere =
        entities_matching_search_request(&entities, &request("夜景 雨夜角色 不要 黑衣人", &["夜景"], &[], &["黑衣人"]));
    assert_eq!(ids(&elsewhere), vec!["hero"]);
    assert!(entities_matching_search_request(&entities, &request("   ", &[], &[], &[])).is_empty());
}

#[test]
fn entity_terms_are_lower_cased_without_blank_ones() {
    assert_eq!(
        entity_terms("Hero", &vec!["  ".to_string(), "主角".to_string(), "Rain GIRL".to_string()]),
        vec!["hero", "主角", "rain girl"]
    );
}

#[test]
fn assets_mentioning_more_terms_come_first() {
    let assets = vec![
        asset("1", "other.png", "D:/other.png"),
        asset("2", "b_hero.png", "D:/b_hero.png"),
        asset("3", "hero_in_rain.png", "D:/hero_in_rain.png"),
        asset("4", "a_hero.png", "D:/a_hero.png"),
        asset("5", "clip.png", "D:/Rain/clip.png"),
    ];
    let terms = vec!["hero".to_string(), "rain".to_string()];
    let found = assets_matching_entity_terms(&assets, &terms, 10);
    let found_ids = found.iter().map(|a| a.id.as_str()).collect::<Vec<_>>();
    assert_eq!(found_ids, vec!["3", "4", "2", "5"]);
    let limited = assets_matching_entity_terms(&assets, &terms, 2);
    assert_eq!(limited.iter().map(|a| a.id.as_str()).collect::<Vec<_>>(), vec!["3", "4"]);
}
