//! Checks and record construction for user requests: select annotations,
//! new collections, entities, libraries and scan jobs, and the inline data
//! URLs handed to the interface.

use vstd::prelude::*;

use crate::errors::AppError;
use crate::export::base64_text;
use crate::jobs::Job;
use crate::models::{
    CreateEntityRequest, CreateLibraryRequest, CreateSelectCollectionRequest, Entity, IndexProfile,
    JobStatus, JobType, Library, LibraryStatus, SelectCollection, UpdateSelectItemRequest,
};
use crate::text::{is_blank, push_str, string_of, trim_str, trimmed};

verus! {

fn message(text: &str) -> (r: AppError)
    ensures
        r matches AppError::Other(m) && m@ == text@,
{
    AppError::Other(text.to_string())
}

// ---------------------------------------------------------------------------
// Select annotations
// ---------------------------------------------------------------------------

pub open spec fn rating_ok(r: Option<i32>) -> bool {
    match r {
        Some(v) => 0 <= v <= 5,
        None => true,
    }
}

/// Recommended in/out points are not negative, and the in point comes
/// strictly before the out point when both are set.
pub open spec fn range_ok(start: Option<i64>, end: Option<i64>) -> bool {
    &&& (start matches Some(s) ==> s >= 0)
    &&& (end matches Some(e) ==> e >= 0)
    &&& (start matches Some(s) ==> (end matches Some(e) ==> s < e))
}

/// Checks a select-item annotation: a rating from 0 to 5 and a valid
/// recommended range; the rating is checked first.
pub fn validate_update_request(request: &UpdateSelectItemRequest) -> (r: Result<(), AppError>)
    ensures
        r is Ok <==> rating_ok(request.rating) && range_ok(request.recommended_in_ms, request.recommended_out_ms),
        r matches Err(e) ==> e matches AppError::Other(m) && m@ == if !rating_ok(request.rating) {
            "评分必须在 0 到 5 之间"@
        } else {
            "推荐入点必须早于推荐出点"@
        },
{
    match request.rating {
        Some(v) => {
            if !(0 <= v && v <= 5) {
                return Err(message("评分必须在 0 到 5 之间"));
            }
        },
        None => {},
    }
    let bad_in = match request.recommended_in_ms {
        Some(v) => v < 0,
        None => false,
    };
    let bad_out = match request.recommended_out_ms {
        Some(v) => v < 0,
        None => false,
    };
    let bad_order = match (request.recommended_in_ms, request.recommended_out_ms) {
        (Some(s), Some(e)) => s >= e,
        _ => false,
    };
    if bad_in || bad_out || bad_order {
        return Err(message("推荐入点必须早于推荐出点"));
    }
    Ok(())
}

// ---------------------------------------------------------------------------
// New records
// ---------------------------------------------------------------------------

/// An optional description is kept only when something is left of it once trimmed.
pub open spec fn kept_description(d: Option<String>) -> Option<String> {
    match d {
        Some(v) => if trimmed(v@).len() > 0 { Some(v) } else { None },
        None => None,
    }
}

fn keep_description(d: &Option<String>) -> (r: Option<String>)
    ensures
        r == kept_description(*d),
{
    match d {
        Some(v) => if is_blank(v.as_str()) { None } else { Some(v.clone()) },
        None => None,
    }
}

pub open spec fn collection_name_ok(name: Seq<char>) -> bool {
    let n = trimmed(name);
    0 < n.len() <= 80
}

/// A new select collection with id `id` created at `now`: its name trimmed
/// (1 to 80 characters), its description only when not blank.
pub fn new_select_collection(request: &CreateSelectCollectionRequest, id: String, now: i64) -> (r: Result<SelectCollection, AppError>)
    ensures
        r is Ok <==> collection_name_ok(request.name@),
        r matches Ok(c) ==> c.id == id && c.name@ == trimmed(request.name@)
            && c.description == kept_description(request.description) && c.created_at == now && c.updated_at == now,
        r matches Err(e) ==> e matches AppError::Other(m) && m@ == "选片集合名称不能为空且不能超过 80 个字符"@,
{
    let name = trim_str(request.name.as_str());
    if name.len() == 0 || name.len() > 80 {
        return Err(message("选片集合名称不能为空且不能超过 80 个字符"));
    }
    Ok(SelectCollection {
        id,
        name: string_of(&name),
        description: keep_description(&request.description),
        created_at: now,
        updated_at: now,
    })
}

/// Creates a select collection under a new random id.
pub fn create_select_collection(request: &CreateSelectCollectionRequest, now: i64) -> (r: Result<SelectCollection, AppError>)
    ensures
        r is Ok <==> collection_name_ok(request.name@),
        r matches Ok(c) ==> c.id@.len() == 36 && c.name@ == trimmed(request.name@)
            && c.description == kept_description(request.description) && c.created_at == now && c.updated_at == now,
        r matches Err(e) ==> e matches AppError::Other(m) && m@ == "选片集合名称不能为空且不能超过 80 个字符"@,
{
    let id = crate::models::new_random_id();
    new_select_collection(request, id, now)
}

/// The aliases kept for an entity: each trimmed, the empty ones dropped.
pub open spec fn kept_aliases(a: Seq<Seq<char>>) -> Seq<Seq<char>>
    decreases a.len(),
{
    if a.len() == 0 {
        Seq::empty()
    } else {
        kept_aliases(a.drop_last()) + if trimmed(a.last()).len() > 0 { seq![trimmed(a.last())] } else { Seq::empty() }
    }
}

/// A new entity with id `id` created at `now`: name and type trimmed and
/// not empty, description only when not blank, aliases trimmed without
/// empty ones.
pub fn new_entity(request: &CreateEntityRequest, id: String, now: i64) -> (r: Result<Entity, AppError>)
    ensures
        r is Ok <==> trimmed(request.name@).len() > 0 && trimmed(request.entity_type@).len() > 0,
        r matches Ok(e) ==> e.id == id && e.entity_type@ == trimmed(request.entity_type@)
            && e.name@ == trimmed(request.name@) && e.description == kept_description(request.description)
            && e.aliases.deep_view() == kept_aliases(request.aliases.deep_view()) && e.pack_id is None
            && e.created_at == now && e.updated_at == now,
        r matches Err(e) ==> e matches AppError::Other(m) && m@ == "实体名称和类型不能为空"@,
{
    let name = trim_str(request.name.as_str());
    let kind = trim_str(request.entity_type.as_str());
    if name.len() == 0 || kind.len() == 0 {
        return Err(message("实体名称和类型不能为空"));
    }
    let mut aliases: Vec<String> = Vec::new();
    let n = request.aliases.len();
    let ghost src = request.aliases.deep_view();
    for i in 0..n
        invariant
            n == src.len(),
            src == request.aliases.deep_view(),
            aliases.deep_view() == kept_aliases(src.take(i as int)),
    {
        assert(src.take(i + 1).drop_last() =~= src.take(i as int));
        let t = trim_str(request.aliases[i].as_str());
        assert(t@ == trimmed(src[i as int]));
        let ghost before = aliases.deep_view();
        if t.len() > 0 {
            aliases.push(string_of(&t));
        }
        assert(aliases.deep_view() =~= kept_aliases(src.take(i + 1)));
    }
    assert(src.take(n as int) =~= src);
    Ok(Entity {
        id,
        entity_type: string_of(&kind),
        name: string_of(&name),
        description: keep_description(&request.description),
        aliases,
        pack_id: None,
        created_at: now,
        updated_at: now,
    })
}

/// Creates an entity under a new random id.
pub fn create_entity(request: &CreateEntityRequest, now: i64) -> (r: Result<Entity, AppError>)
    ensures
        r is Ok <==> trimmed(request.name@).len() > 0 && trimmed(request.entity_type@).len() > 0,
        r matches Ok(e) ==> e.id@.len() == 36 && e.entity_type@ == trimmed(request.entity_type@)
            && e.name@ == trimmed(request.name@) && e.description == kept_description(request.description)
            && e.aliases.deep_view() == kept_aliases(request.aliases.deep_view()) && e.pack_id is None
            && e.created_at == now && e.updated_at == now,
        r matches Err(e) ==> e matches AppError::Other(m) && m@ == "实体名称和类型不能为空"@,
{
    let id = crate::models::new_random_id();
    new_entity(request, id, now)
}

/// A new library at the already normalised root `root`, with id `id`,
/// created at `now`: idle, balanced unless another profile was asked for,
/// with the default patterns unless others were given, not watched.
pub fn new_library(request: &CreateLibraryRequest, root: String, id: String, now: i64) -> (r: Library)
    ensures
        r.id == id,
        r.name == request.name,
        r.root_path == root,
        r.status == LibraryStatus::Idle,
        r.index_profile == match request.index_profile { Some(p) => p, None => IndexProfile::Balanced },
        match request.include_patterns {
            Some(p) => r.include_patterns.deep_view() == p.deep_view(),
            None => r.include_patterns.deep_view() == seq!["**/*"@],
        },
        match request.exclude_patterns {
            Some(p) => r.exclude_patterns.deep_view() == p.deep_view(),
            None => r.exclude_patterns.deep_view() == seq!["**/.*"@, "**/Thumbs.db"@, "**/.DS_Store"@],
        },
        !r.watch_enabled,
        r.last_scan_at is None,
        r.created_at == now,
        r.updated_at == now,
{
    let include_patterns = match &request.include_patterns {
        Some(p) => copy_strings(p),
        None => {
            let d = crate::scan::default_include_patterns();
            assert(d.deep_view() =~= seq!["**/*"@]);
            d
        },
    };
    let exclude_patterns = match &request.exclude_patterns {
        Some(p) => copy_strings(p),
        None => {
            let d = crate::scan::default_exclude_patterns();
            assert(d.deep_view() =~= seq!["**/.*"@, "**/Thumbs.db"@, "**/.DS_Store"@]);
            d
        },
    };
    Library {
        id,
        name: request.name.clone(),
        root_path: root,
        status: LibraryStatus::Idle,
        index_profile: match request.index_profile {
            Some(p) => p,
            None => IndexProfile::Balanced,
        },
        include_patterns,
        exclude_patterns,
        watch_enabled: false,
        last_scan_at: None,
        created_at: now,
        updated_at: now,
    }
}

fn copy_strings(v: &Vec<String>) -> (r: Vec<String>)
    ensures
        r.deep_view() == v.deep_view(),
{
    let mut out: Vec<String> = Vec::new();
    let n = v.len();
    for i in 0..n
        invariant
            n == v@.len(),
            out.deep_view() == v.deep_view().take(i as int),
    {
        let s = v[i].clone();
        let ghost before = out.deep_view();
        out.push(s);
        assert(out.deep_view() =~= before.push(s@));
        assert(out.deep_view() =~= v.deep_view().take(i + 1));
    }
    assert(v.deep_view().take(n as int) =~= v.deep_view());
    out
}

/// The scan job queued for a library with id `id` at `now`; refused while
/// the library is already scanning.
pub fn new_scan_job(library: &Library, id: String, now: i64) -> (r: Result<Job, AppError>)
    ensures
        r is Ok <==> library.status != LibraryStatus::Scanning,
        r matches Ok(j) ==> j.id == id && j.job_type == JobType::Scan && j.library_id == Some(library.id)
            && j.asset_id is None && j.status == JobStatus::Pending && j.priority == 10
            && j.current_step@ == "等待扫描"@ && j.checkpoint_json is None && j.error_code is None
            && j.error_message is None && j.started_at is None && j.finished_at is None
            && j.created_at == now && j.updated_at == now,
        r matches Err(e) ==> e matches AppError::Other(m) && m@ == "素材库正在扫描中"@,
{
    if library.status == LibraryStatus::Scanning {
        return Err(message("素材库正在扫描中"));
    }
    let mut step = String::new();
    push_str(&mut step, "等待扫描");
    Ok(Job {
        id,
        job_type: JobType::Scan,
        library_id: Some(library.id.clone()),
        asset_id: None,
        status: JobStatus::Pending,
        priority: 10,
        current_step: step,
        checkpoint_json: None,
        error_code: None,
        error_message: None,
        started_at: None,
        finished_at: None,
        created_at: now,
        updated_at: now,
    })
}

/// Queues a scan job for a library under a new random id.
pub fn scan_job(library: &Library, now: i64) -> (r: Result<Job, AppError>)
    ensures
        r is Ok <==> library.status != LibraryStatus::Scanning,
        r matches Ok(j) ==> j.id@.len() == 36 && j.job_type == JobType::Scan && j.library_id == Some(library.id)
            && j.status == JobStatus::Pending && j.priority == 10 && j.current_step@ == "等待扫描"@
            && j.created_at == now && j.updated_at == now,
        r matches Err(e) ==> e matches AppError::Other(m) && m@ == "素材库正在扫描中"@,
{
    let id = crate::models::new_random_id();
    new_scan_job(library, id, now)
}

// ---------------------------------------------------------------------------
// Inline media
// ---------------------------------------------------------------------------

/// Largest segment preview sent inline.
pub const MAX_PREVIEW_RESPONSE_BYTES: usize = 6291456;

/// Largest segment thumbnail sent inline.
pub const MAX_THUMBNAIL_RESPONSE_BYTES: usize = 3145728;

/// The inline form of a cached JPEG thumbnail.
pub fn jpeg_data_url(bytes: &[u8]) -> (r: String)
    ensures
        r@ == "data:image/jpeg;base64,"@ + base64_text(bytes@),
{
    let mut out = String::new();
    push_str(&mut out, "data:image/jpeg;base64,");
    let b = crate::export::base64_encode(bytes);
    push_str(&mut out, b.as_str());
    out
}

/// A segment preview inline: only an `.mp4` inside the cache, at most
/// `MAX_PREVIEW_RESPONSE_BYTES` long.
pub fn preview_data_url(
    canonical_path: &str,
    inside_cache: bool,
    extension: &Option<String>,
    bytes: &[u8],
) -> (r: Result<String, AppError>)
    ensures
        r is Ok <==> inside_cache && (extension matches Some(e) && e@ == "mp4"@) && bytes@.len() <= MAX_PREVIEW_RESPONSE_BYTES,
        r matches Ok(u) ==> u@ == "data:video/mp4;base64,"@ + base64_text(bytes@),
        r matches Err(e) ==> if !(inside_cache && (extension matches Some(x) && x@ == "mp4"@)) {
            e matches AppError::InvalidPath(p) && p@ == canonical_path@
        } else {
            e matches AppError::Other(m) && m@ == "预览缓存过大，无法安全载入；请重新生成预览"@
        },
{
    let is_mp4 = match extension {
        Some(e) => crate::text::str_eq(e.as_str(), "mp4"),
        None => false,
    };
    if !inside_cache || !is_mp4 {
        return Err(AppError::InvalidPath(canonical_path.to_string()));
    }
    if bytes.len() > MAX_PREVIEW_RESPONSE_BYTES {
        return Err(message("预览缓存过大，无法安全载入；请重新生成预览"));
    }
    let mut out = String::new();
    push_str(&mut out, "data:video/mp4;base64,");
    let b = crate::export::base64_encode(bytes);
    push_str(&mut out, b.as_str());
    Ok(out)
}

/// A segment thumbnail inline: only a `.jpg` or `.jpeg` inside the cache, at
/// most `MAX_THUMBNAIL_RESPONSE_BYTES` long; otherwise none.
pub fn segment_thumbnail_data_url(inside_cache: bool, extension: &Option<String>, bytes: &[u8]) -> (r: Option<String>)
    ensures
        r is Some <==> inside_cache && (extension matches Some(e) && (e@ == "jpg"@ || e@ == "jpeg"@))
            && bytes@.len() <= MAX_THUMBNAIL_RESPONSE_BYTES,
        r matches Some(u) ==> u@ == "data:image/jpeg;base64,"@ + base64_text(bytes@),
{
    let is_jpeg = match extension {
        Some(e) => crate::text::str_eq(e.as_str(), "jpg") || crate::text::str_eq(e.as_str(), "jpeg"),
        None => false,
    };
    if !inside_cache || !is_jpeg || bytes.len() > MAX_THUMBNAIL_RESPONSE_BYTES {
        return None;
    }
    Some(jpeg_data_url(bytes))
}

} // verus!
