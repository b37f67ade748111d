//! The optional local CLIP provider's decisions: whether the model is
//! usable, and the English prompt a creator's query becomes.

use vstd::prelude::*;

use crate::ranking::{sorted_unique_names, strictly_sorted};
use crate::search::joined;
use crate::text::{chars_of, contains_str, push_str, string_of, trim_str, trimmed};

verus! {

/// The provider id reported with the model status.
pub open spec fn provider_id() -> Seq<char> {
    "local-clip-vit-b32"@
}

/// The readiness of the local semantic model, as shown in Settings.
#[derive(Debug, Clone)]
pub struct SemanticModelStatus {
    pub ready: bool,
    pub model_installed: bool,
    pub runtime_available: bool,
    pub provider_id: String,
    pub message: String,
}

/// Counts of one semantic reindex run.
#[derive(Debug, Clone, Copy, PartialEq, Eq, Structural)]
pub struct SemanticIndexResult {
    pub indexed: usize,
    pub skipped: usize,
    pub failed: usize,
    pub entity_references_indexed: usize,
    pub entity_references_skipped: usize,
    pub entity_references_failed: usize,
}

pub open spec fn vision_files() -> Seq<Seq<char>> {
    seq!["model.onnx"@, "preprocessor_config.json"@]
}

pub open spec fn text_files() -> Seq<Seq<char>> {
    seq!["model.onnx"@, "tokenizer.json"@, "config.json"@, "special_tokens_map.json"@, "tokenizer_config.json"@]
}

/// A repository directory holds every required file when it exists and each
/// required name is among the names of the files found under it.
pub open spec fn repository_complete(found: Option<Seq<Seq<char>>>, required: Seq<Seq<char>>) -> bool {
    match found {
        Some(names) => forall|i: int| 0 <= i < required.len() ==> names.contains(#[trigger] required[i]),
        None => false,
    }
}

/// The files the vision encoder's repository must hold.
pub fn required_vision_files() -> (r: Vec<&'static str>)
    ensures
        r@.len() == vision_files().len(),
        forall|i: int| 0 <= i < r@.len() ==> (#[trigger] r@[i])@ == vision_files()[i],
{
    vec!["model.onnx", "preprocessor_config.json"]
}

/// The files the text encoder's repository must hold.
pub fn required_text_files() -> (r: Vec<&'static str>)
    ensures
        r@.len() == text_files().len(),
        forall|i: int| 0 <= i < r@.len() ==> (#[trigger] r@[i])@ == text_files()[i],
{
    vec!["model.onnx", "tokenizer.json", "config.json", "special_tokens_map.json", "tokenizer_config.json"]
}

fn all_present(names: &Vec<String>, required: &Vec<&str>) -> (r: bool)
    ensures
        r == repository_complete(Some(names.deep_view()), required@.map_values(|s: &str| s@)),
{
    let ghost req = required@.map_values(|s: &str| s@);
    let m = required.len();
    for i in 0..m
        invariant
            m == required@.len(),
            req == required@.map_values(|s: &str| s@),
            forall|k: int| 0 <= k < i ==> names.deep_view().contains(#[trigger] req[k]),
    {
        let want = chars_of(required[i]);
        assert(want@ == req[i as int]);
        let n = names.len();
        let mut hit = false;
        for j in 0..n
            invariant
                n == names@.len(),
                i < m,
                m == required@.len(),
                req == required@.map_values(|s: &str| s@),
                want@ == req[i as int],
                hit ==> names.deep_view().contains(want@),
                !hit ==> forall|q: int| 0 <= q < j ==> names.deep_view()[q] != want@,
        {
            let have = chars_of(names[j].as_str());
            if crate::text::chars_eq(&have, &want) {
                assert(names.deep_view()[j as int] == want@);
                hit = true;
            }
        }
        if !hit {
            proof {
                if names.deep_view().contains(want@) {
                    let j = choose|j: int| 0 <= j < names.deep_view().len() && names.deep_view()[j] == want@;
                    assert(names.deep_view()[j] != want@);
                }
                assert(!names.deep_view().contains(req[i as int]));
            }
            return false;
        }
    }
    true
}

/// Whether the file names found under a repository (`None` when it is not a
/// directory) include every required one.
pub fn repository_has_files(found: &Option<Vec<String>>, required: &Vec<&str>) -> (r: bool)
    ensures
        r == repository_complete(
            match found { Some(v) => Some(v.deep_view()), None => None },
            required@.map_values(|s: &str| s@),
        ),
{
    match found {
        None => false,
        Some(names) => all_present(names, required),
    }
}

/// The status message for the model's state.
pub open spec fn status_message(model_installed: bool, runtime_available: bool) -> Seq<char> {
    if !runtime_available {
        "未检测到随应用分发的 ONNX Runtime；关键词和颜色检索仍可用"@
    } else if !model_installed {
        "模型未完整安装或文件已被移除；点击下载后才会访问网络，核心本地流程不受影响"@
    } else {
        "本地 CLIP 模型已就绪；可重新建立语义向量索引"@
    }
}

/// The model status from what is on disk: the ready marker, the file names
/// found under each encoder's repository (`None` when it is missing) and
/// the bundled runtime. The model counts as installed only when the marker
/// and every required file of both encoders are present.
pub fn status(
    marker_present: bool,
    vision_found: &Option<Vec<String>>,
    text_found: &Option<Vec<String>>,
    runtime_present: bool,
) -> (r: SemanticModelStatus)
    ensures
        r.model_installed == (marker_present
            && repository_complete(
                match vision_found { Some(v) => Some(v.deep_view()), None => None },
                vision_files(),
            ) && repository_complete(
                match text_found { Some(v) => Some(v.deep_view()), None => None },
                text_files(),
            )),
        r.runtime_available == runtime_present,
        r.ready == (r.model_installed && r.runtime_available),
        r.provider_id@ == provider_id(),
        r.message@ == status_message(r.model_installed, r.runtime_available),
{
    let vision = required_vision_files();
    let text = required_text_files();
    assert(vision@.map_values(|s: &str| s@) =~= vision_files());
    assert(text@.map_values(|s: &str| s@) =~= text_files());
    let model_installed = marker_present && repository_has_files(vision_found, &vision)
        && repository_has_files(text_found, &text);
    let runtime_available = runtime_present;
    let mut message = String::new();
    if !runtime_available {
        push_str(&mut message, "未检测到随应用分发的 ONNX Runtime；关键词和颜色检索仍可用");
    } else if !model_installed {
        push_str(&mut message, "模型未完整安装或文件已被移除；点击下载后才会访问网络，核心本地流程不受影响");
    } else {
        push_str(&mut message, "本地 CLIP 模型已就绪；可重新建立语义向量索引");
    }
    let mut id = String::new();
    push_str(&mut id, "local-clip-vit-b32");
    SemanticModelStatus {
        ready: model_installed && runtime_available,
        model_installed,
        runtime_available,
        provider_id: id,
        message,
    }
}

// ---------------------------------------------------------------------------
// Query prompts
// ---------------------------------------------------------------------------

/// The local glossary from common Chinese creator and ACG terms to the
/// English the CLIP text encoder understands.
pub open spec fn glossary() -> Seq<(Seq<char>, Seq<char>)> {
    seq![
        ("雨夜"@, "rainy night"@),
        ("下雨"@, "rain"@),
        ("雨天"@, "rainy day"@),
        ("雨伞"@, "umbrella"@),
        ("夜景"@, "night scene"@),
        ("夜晚"@, "night"@),
        ("白天"@, "daytime"@),
        ("日落"@, "sunset"@),
        ("黄昏"@, "dusk"@),
        ("清晨"@, "dawn"@),
        ("角色"@, "character"@),
        ("人物"@, "person"@),
        ("女孩"@, "girl"@),
        ("男孩"@, "boy"@),
        ("人群"@, "crowd"@),
        ("侧脸"@, "side profile"@),
        ("正脸"@, "front face"@),
        ("背影"@, "back view"@),
        ("回头"@, "looking back"@),
        ("近景"@, "close up"@),
        ("特写"@, "close up"@),
        ("中景"@, "medium shot"@),
        ("远景"@, "wide shot"@),
        ("俯拍"@, "high angle"@),
        ("仰拍"@, "low angle"@),
        ("第一人称"@, "first person view"@),
        ("城市"@, "city"@),
        ("街道"@, "street"@),
        ("室内"@, "indoors"@),
        ("室外"@, "outdoors"@),
        ("学校"@, "school"@),
        ("海边"@, "beach"@),
        ("战斗"@, "battle"@),
        ("打斗"@, "fight"@),
        ("奔跑"@, "running"@),
        ("走路"@, "walking"@),
        ("跳跃"@, "jumping"@),
        ("拥抱"@, "hugging"@),
        ("游戏"@, "video game"@),
        ("界面"@, "user interface"@),
        ("字幕"@, "subtitles"@),
        ("微笑"@, "smiling"@),
        ("大笑"@, "laughing"@),
        ("哭"@, "crying"@),
        ("愤怒"@, "angry"@),
        ("惊讶"@, "surprised"@),
        ("悲伤"@, "sad"@),
        ("害羞"@, "shy"@),
        ("粉色头发"@, "pink hair"@),
        ("黑色头发"@, "black hair"@),
        ("白色头发"@, "white hair"@),
        ("金色头发"@, "blonde hair"@),
        ("红"@, "red"@),
        ("蓝"@, "blue"@),
        ("绿色"@, "green"@),
        ("黄色"@, "yellow"@)
    ]
}

fn glossary_table() -> (r: Vec<(&'static str, &'static str)>)
    ensures
        r@.len() == glossary().len(),
        forall|i: int| 0 <= i < r@.len() ==> ((#[trigger] r@[i]).0@, r@[i].1@) == glossary()[i],
{
    vec![
        ("雨夜", "rainy night"),
        ("下雨", "rain"),
        ("雨天", "rainy day"),
        ("雨伞", "umbrella"),
        ("夜景", "night scene"),
        ("夜晚", "night"),
        ("白天", "daytime"),
        ("日落", "sunset"),
        ("黄昏", "dusk"),
        ("清晨", "dawn"),
        ("角色", "character"),
        ("人物", "person"),
        ("女孩", "girl"),
        ("男孩", "boy"),
        ("人群", "crowd"),
        ("侧脸", "side profile"),
        ("正脸", "front face"),
        ("背影", "back view"),
        ("回头", "looking back"),
        ("近景", "close up"),
        ("特写", "close up"),
        ("中景", "medium shot"),
        ("远景", "wide shot"),
        ("俯拍", "high angle"),
        ("仰拍", "low angle"),
        ("第一人称", "first person view"),
        ("城市", "city"),
        ("街道", "street"),
        ("室内", "indoors"),
        ("室外", "outdoors"),
        ("学校", "school"),
        ("海边", "beach"),
        ("战斗", "battle"),
        ("打斗", "fight"),
        ("奔跑", "running"),
        ("走路", "walking"),
        ("跳跃", "jumping"),
        ("拥抱", "hugging"),
        ("游戏", "video game"),
        ("界面", "user interface"),
        ("字幕", "subtitles"),
        ("微笑", "smiling"),
        ("大笑", "laughing"),
        ("哭", "crying"),
        ("愤怒", "angry"),
        ("惊讶", "surprised"),
        ("悲伤", "sad"),
        ("害羞", "shy"),
        ("粉色头发", "pink hair"),
        ("黑色头发", "black hair"),
        ("白色头发", "white hair"),
        ("金色头发", "blonde hair"),
        ("红", "red"),
        ("蓝", "blue"),
        ("绿色", "green"),
        ("黄色", "yellow")
    ]
}

/// English phrases of the glossary terms that occur in `q`, in glossary order.
pub open spec fn glossary_hits(q: Seq<char>, entries: Seq<(Seq<char>, Seq<char>)>) -> Seq<Seq<char>>
    decreases entries.len(),
{
    if entries.len() == 0 {
        Seq::empty()
    } else {
        glossary_hits(q, entries.drop_last()) + if crate::text::has_substring(q, entries.last().0) {
            seq![entries.last().1]
        } else {
            Seq::empty()
        }
    }
}

/// CJK unified ideographs, including extension A.
pub open spec fn han(c: char) -> bool {
    ('\u{4e00}' <= c && c <= '\u{9fff}') || ('\u{3400}' <= c && c <= '\u{4dbf}')
}

pub fn is_han(c: char) -> (r: bool)
    ensures
        r == han(c),
{
    ('\u{4e00}' <= c && c <= '\u{9fff}') || ('\u{3400}' <= c && c <= '\u{4dbf}')
}

/// The prompt a query becomes: nothing for a blank query; the sorted,
/// de-duplicated English phrases of the glossary terms it contains, joined
/// by `, `; when none occurs, the trimmed query itself unless it holds a Han
/// character, in which case nothing (the keyword search stays honest).
pub open spec fn prompt_for(q: Seq<char>, r: Option<Seq<char>>) -> bool {
    let n = trimmed(q);
    let hits = glossary_hits(n, glossary());
    if n.len() == 0 {
        r is None
    } else if hits.len() == 0 {
        if exists|i: int| 0 <= i < n.len() && han(#[trigger] n[i]) { r is None } else { r == Some(n) }
    } else {
        exists|u: Seq<Seq<char>>| strictly_sorted(u) && u.to_set() == hits.to_set() && r == Some(joined(u, ", "@))
    }
}

pub open spec fn option_view(r: Option<String>) -> Option<Seq<char>> {
    match r {
        Some(s) => Some(s@),
        None => None,
    }
}

fn join_with(pieces: &Vec<String>, sep: &str) -> (r: String)
    ensures
        r@ == joined(pieces.deep_view(), sep@),
{
    let mut out = String::new();
    let n = pieces.len();
    let ghost v = pieces.deep_view();
    for k in 0..n
        invariant
            n == v.len(),
            v == pieces.deep_view(),
            out@ == joined(v.take(k as int), sep@),
    {
        assert(v.take(k + 1).drop_last() =~= v.take(k as int));
        if k > 0 {
            push_str(&mut out, sep);
        }
        push_str(&mut out, pieces[k].as_str());
        proof {
            if k == 0 {
                assert(v.take(1) =~= seq![v[0]]);
            }
        }
        assert(out@ =~= joined(v.take(k + 1), sep@));
    }
    assert(v.take(n as int) =~= v);
    out
}

/// The English CLIP prompt for a creator's query, when one can be given.
pub fn semantic_query_prompt(query: &str) -> (r: Option<String>)
    ensures
        prompt_for(query@, option_view(r)),
{
    let n = trim_str(query);
    if n.len() == 0 {
        return None;
    }
    let normalized = string_of(&n);
    let table = glossary_table();
    let m = table.len();
    let mut hits: Vec<String> = Vec::new();
    for i in 0..m
        invariant
            m == table@.len() == glossary().len(),
            forall|k: int| 0 <= k < table@.len() ==> ((#[trigger] table@[k]).0@, table@[k].1@) == glossary()[k],
            normalized@ == trimmed(query@),
            hits.deep_view() == glossary_hits(trimmed(query@), glossary().take(i as int)),
    {
        assert(glossary().take(i + 1).drop_last() =~= glossary().take(i as int));
        let (chinese, english) = table[i];
        let ghost before = hits.deep_view();
        if contains_str(normalized.as_str(), chinese) {
            hits.push(english.to_string());
        }
        assert(hits.deep_view() =~= glossary_hits(trimmed(query@), glossary().take(i + 1)));
    }
    assert(glossary().take(m as int) =~= glossary());
    if hits.len() == 0 {
        let k = n.len();
        for j in 0..k
            invariant
                k == n@.len(),
                k > 0,
                n@ == trimmed(query@),
                glossary_hits(trimmed(query@), glossary()).len() == 0,
                forall|q: int| 0 <= q < j ==> !han(#[trigger] n@[q]),
        {
            if is_han(n[j]) {
                assert(han(n@[j as int]));
                return None;
            }
        }
        Some(normalized)
    } else {
        let unique = sorted_unique_names(&hits);
        let text = join_with(&unique, ", ");
        Some(text)
    }
}

/// The prompt for a parsed search: the must and should terms joined by
/// spaces; exclusions never enter it. Without parsed terms the raw query is
/// used instead.
pub open spec fn conditions_prompt_for(must: Seq<Seq<char>>, should: Seq<Seq<char>>, raw: Seq<char>, r: Option<Seq<char>>) -> bool {
    if must.len() + should.len() == 0 {
        prompt_for(raw, r)
    } else {
        prompt_for(joined(must + should, " "@), r)
    }
}

/// The CLIP prompt for parsed search conditions.
pub fn semantic_query_prompt_for_conditions(must: &Vec<String>, should: &Vec<String>, raw_query: &str) -> (r: Option<String>)
    ensures
        conditions_prompt_for(must.deep_view(), should.deep_view(), raw_query@, option_view(r)),
{
    if must.len() == 0 && should.len() == 0 {
        return semantic_query_prompt(raw_query);
    }
    let mut terms: Vec<String> = Vec::new();
    let a = must.len();
    for i in 0..a
        invariant
            a == must@.len(),
            terms.deep_view() == must.deep_view().take(i as int),
    {
        let t = must[i].clone();
        assert(t@ == must.deep_view()[i as int]);
        let ghost before = terms.deep_view();
        terms.push(t);
        assert(terms.deep_view() =~= before.push(t@));
        assert(terms.deep_view() =~= must.deep_view().take(i + 1));
    }
    assert(must.deep_view().take(a as int) =~= must.deep_view());
    let b = should.len();
    for i in 0..b
        invariant
            b == should@.len(),
            terms.deep_view() == must.deep_view() + should.deep_view().take(i as int),
    {
        let t = should[i].clone();
        assert(t@ == should.deep_view()[i as int]);
        let ghost before = terms.deep_view();
        terms.push(t);
        assert(terms.deep_view() =~= before.push(t@));
        assert(terms.deep_view() =~= must.deep_view() + should.deep_view().take(i + 1));
    }
    assert(should.deep_view().take(b as int) =~= should.deep_view());
    let text = join_with(&terms, " ");
    semantic_query_prompt(text.as_str())
}

// ---------------------------------------------------------------------------
// Reindexing
// ---------------------------------------------------------------------------

/// The image an asset's semantic vector is computed from: the file for an
/// image, its cover thumbnail for a video; audio has none.
pub fn semantic_source(asset: &crate::models::Asset, cache: &crate::cache::CacheManager) -> (r: Option<String>)
    ensures
        match asset.media_type {
            crate::models::MediaType::Image => r matches Some(p) && p@ == asset.file_path@,
            crate::models::MediaType::Video => r matches Some(p) && crate::cache::cache_file(
                cache.root_view(), "thumbnails"@, asset.id@ + seq!['_'] + "cover"@ + ".jpg"@, p@),
            crate::models::MediaType::Audio => r is None,
        },
{
    match asset.media_type {
        crate::models::MediaType::Image => Some(asset.file_path.clone()),
        crate::models::MediaType::Video => Some(cache.thumbnail_path(asset.id.as_str(), "cover")),
        crate::models::MediaType::Audio => None,
    }
}

/// The image an entity reference's semantic vector is computed from: its
/// own image file, else the image (or video cover) of the asset it points to.
pub fn reference_source(
    reference: &crate::models::EntityReference,
    asset: &Option<crate::models::Asset>,
    cache: &crate::cache::CacheManager,
) -> (r: Option<String>)
    ensures
        match reference.image_path {
            Some(p) => r matches Some(q) && q@ == p@,
            None => match reference.asset_id {
                None => r is None,
                Some(_) => match asset {
                    Some(a) => match a.media_type {
                        crate::models::MediaType::Image => r matches Some(q) && q@ == a.file_path@,
                        crate::models::MediaType::Video => r matches Some(q) && crate::cache::cache_file(
                            cache.root_view(), "thumbnails"@, a.id@ + seq!['_'] + "cover"@ + ".jpg"@, q@),
                        crate::models::MediaType::Audio => r is None,
                    },
                    None => r is None,
                },
            },
        },
{
    match &reference.image_path {
        Some(p) => Some(p.clone()),
        None => match &reference.asset_id {
            None => None,
            Some(_) => match asset {
                Some(a) => semantic_source(a, cache),
                None => None,
            },
        },
    }
}

/// How indexing one image went.
#[derive(Debug, Clone, Copy, PartialEq, Eq, Structural)]
pub enum IndexOutcome {
    Indexed,
    Skipped,
    Failed,
}

impl SemanticIndexResult {
    /// A result with nothing counted yet.
    pub fn new() -> (r: SemanticIndexResult)
        ensures
            r.indexed == 0 && r.skipped == 0 && r.failed == 0,
            r.entity_references_indexed == 0 && r.entity_references_skipped == 0 && r.entity_references_failed == 0,
    {
        SemanticIndexResult {
            indexed: 0,
            skipped: 0,
            failed: 0,
            entity_references_indexed: 0,
            entity_references_skipped: 0,
            entity_references_failed: 0,
        }
    }

    /// Counts one asset.
    pub fn record_asset(&mut self, outcome: IndexOutcome)
        requires
            old(self).indexed < usize::MAX && old(self).skipped < usize::MAX && old(self).failed < usize::MAX,
        ensures
            *final(self) == (SemanticIndexResult {
                indexed: (old(self).indexed + if outcome == IndexOutcome::Indexed { 1int } else { 0 }) as usize,
                skipped: (old(self).skipped + if outcome == IndexOutcome::Skipped { 1int } else { 0 }) as usize,
                failed: (old(self).failed + if outcome == IndexOutcome::Failed { 1int } else { 0 }) as usize,
                ..*old(self)
            }),
    {
        match outcome {
            IndexOutcome::Indexed => self.indexed = self.indexed + 1,
            IndexOutcome::Skipped => self.skipped = self.skipped + 1,
            IndexOutcome::Failed => self.failed = self.failed + 1,
        }
    }

    /// Counts one entity reference image.
    pub fn record_reference(&mut self, outcome: IndexOutcome)
        requires
            old(self).entity_references_indexed < usize::MAX && old(self).entity_references_skipped < usize::MAX
                && old(self).entity_references_failed < usize::MAX,
        ensures
            *final(self) == (SemanticIndexResult {
                entity_references_indexed: (old(self).entity_references_indexed
                    + if outcome == IndexOutcome::Indexed { 1int } else { 0 }) as usize,
                entity_references_skipped: (old(self).entity_references_skipped
                    + if outcome == IndexOutcome::Skipped { 1int } else { 0 }) as usize,
                entity_references_failed: (old(self).entity_references_failed
                    + if outcome == IndexOutcome::Failed { 1int } else { 0 }) as usize,
                ..*old(self)
            }),
    {
        match outcome {
            IndexOutcome::Indexed => self.entity_references_indexed = self.entity_references_indexed + 1,
            IndexOutcome::Skipped => self.entity_references_skipped = self.entity_references_skipped + 1,
            IndexOutcome::Failed => self.entity_references_failed = self.entity_references_failed + 1,
        }
    }
}

} // verus!
