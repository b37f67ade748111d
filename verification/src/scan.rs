//! Library scanning decisions: which files are media, hidden or excluded,
//! how a path is normalised and fingerprinted, and what a rescan does with
//! a file it has seen before.

use vstd::prelude::*;

use crate::cache::CacheManager;
use crate::models::{Asset, AssetStatus, FrameRate, MediaType};
use crate::text::{lowercase, push_char, push_decimal, push_str, str_eq, to_lowercase};

verus! {

// ---------------------------------------------------------------------------
// Media files
// ---------------------------------------------------------------------------

/// The lower-case file extensions the scanner indexes.
pub open spec fn media_extension(e: Seq<char>) -> bool {
    e == "jpg"@ || e == "jpeg"@ || e == "png"@ || e == "gif"@ || e == "webp"@ || e == "bmp"@ || e == "tiff"@ || e == "tif"@ || e == "heic"@ || e == "heif"@ || e == "avif"@ || e == "jxl"@ || e == "mp4"@ || e == "mov"@ || e == "mkv"@ || e == "avi"@ || e == "wmv"@ || e == "flv"@ || e == "webm"@ || e == "m4v"@ || e == "mpg"@ || e == "mpeg"@ || e == "mts"@ || e == "m2ts"@ || e == "ts"@ || e == "mp3"@ || e == "wav"@ || e == "aac"@ || e == "flac"@ || e == "m4a"@ || e == "ogg"@
}

fn known_media_extension(e: &str) -> (r: bool)
    ensures
        r == media_extension(e@),
{
    str_eq(e, "jpg") || str_eq(e, "jpeg") || str_eq(e, "png") || str_eq(e, "gif") || str_eq(e, "webp") || str_eq(e, "bmp") || str_eq(e, "tiff") || str_eq(e, "tif") || str_eq(e, "heic") || str_eq(e, "heif") || str_eq(e, "avif") || str_eq(e, "jxl") || str_eq(e, "mp4") || str_eq(e, "mov") || str_eq(e, "mkv") || str_eq(e, "avi") || str_eq(e, "wmv") || str_eq(e, "flv") || str_eq(e, "webm") || str_eq(e, "m4v") || str_eq(e, "mpg") || str_eq(e, "mpeg") || str_eq(e, "mts") || str_eq(e, "m2ts") || str_eq(e, "ts") || str_eq(e, "mp3") || str_eq(e, "wav") || str_eq(e, "aac") || str_eq(e, "flac") || str_eq(e, "m4a") || str_eq(e, "ogg")
}

/// Whether an extension (any case) names a media type the scanner indexes.
pub fn is_media_extension(extension: &str) -> (r: bool)
    ensures
        r == media_extension(lowercase(extension@)),
{
    let lower = to_lowercase(extension);
    known_media_extension(lower.as_str())
}

/// Whether a file path has a media extension (any case). The contract says
/// what holds whichever extension `std` finds on this platform: a positive
/// answer comes from a dot-prefixed piece of the path.
pub fn is_media_file(path: &str) -> (r: bool)
    ensures
        r ==> exists|e: Seq<char>| #![auto]
            crate::text::has_substring(path@, seq!['.'] + e) && !e.contains('.') && media_extension(lowercase(e)),
        crate::export::portable_extension(path@) matches Some(x) ==> r == media_extension(lowercase(x)),
{
    match crate::export::path_extension(path) {
        Some(e) => {
            let r = is_media_extension(e.as_str());
            assert(crate::text::has_substring(path@, seq!['.'] + e@));
            r
        },
        None => false,
    }
}

/// Whether a directory entry name is hidden: it starts with a dot and is not `.` itself.
pub fn is_hidden(name: &str) -> (r: bool)
    ensures
        r == (name@.len() > 0 && name@[0] == '.' && name@ != seq!['.']),
{
    let cs = crate::text::chars_of(name);
    if cs.len() == 0 {
        return false;
    }
    if cs[0] != '.' {
        return false;
    }
    if cs.len() == 1 {
        assert(cs@ =~= seq!['.']);
        return false;
    }
    true
}

// ---------------------------------------------------------------------------
// Include and exclude patterns
// ---------------------------------------------------------------------------

#[verifier::external_type_specification]
#[verifier::external_body]
pub struct ExGlobSet(globset::GlobSet);

/// Longest pattern text, in characters, that is compiled at all. Beyond it
/// the automaton `globset` builds for a literal could overflow its state ids,
/// which `globset` answers with a panic; such patterns are skipped.
pub const MAX_PATTERN_CHARS: usize = 268435456;

/// An include or exclude pattern, compiled, together with the text it was
/// compiled from. Only `build_globset` makes one, so the compiled set is
/// always that of the text.
pub struct PathPattern {
    text: String,
    set: globset::GlobSet,
}

impl View for PathPattern {
    type V = Seq<char>;

    closed spec fn view(&self) -> Seq<char> {
        self.text@
    }
}

/// A pattern that every platform reads alike: `globset` reads a backslash
/// as an escape on some platforms and as a separator on others, and the
/// size limit on the compiled automaton is measured in bytes of the
/// platform's own layout, which no pattern of this length comes near.
pub open spec fn portable_pattern(p: Seq<char>) -> bool {
    !p.contains('\\') && p.len() <= 1024
}

/// Whether `Glob::new(pattern)` parses and a `GlobSetBuilder` holding only
/// that glob builds (stated for portable patterns).
pub uninterp spec fn glob_pattern_builds(pattern: Seq<char>) -> bool;

/// Whether the set built from `pattern` alone matches `path`, for a pattern
/// and a path without backslashes (where no platform rewrites a separator).
pub uninterp spec fn glob_accepts(pattern: Seq<char>, path: Seq<char>) -> bool;

/// `Glob::new(text)`, added alone to a `GlobSetBuilder` and built; `None`
/// when the pattern does not parse or its set does not build (`build`
/// reports that as an error where `Glob::compile_matcher` would panic).
/// Which portable patterns build is the name `glob_pattern_builds`; for
/// other patterns the answer depends on the platform and is not claimed.
#[verifier::external_body]
fn compile_pattern(text: &str) -> (r: Option<PathPattern>)
    requires
        text@.len() <= MAX_PATTERN_CHARS,
    ensures
        r is Some ==> r->0@ == text@,
        portable_pattern(text@) ==> (r is Some <==> glob_pattern_builds(text@)),
{
    let glob = match globset::Glob::new(text) {
        Ok(glob) => glob,
        Err(_) => return None,
    };
    let mut builder = globset::GlobSetBuilder::new();
    builder.add(glob);
    match builder.build() {
        Ok(set) => Some(PathPattern { text: text.to_string(), set }),
        Err(_) => None,
    }
}

/// `GlobSet::is_match` of a compiled pattern on a relative path. For a
/// pattern and a path without backslashes the answer is the name
/// `glob_accepts` of the two texts; otherwise the separators the platform
/// accepts decide it, and nothing is claimed.
#[verifier::external_body]
fn pattern_is_match(pattern: &PathPattern, path: &str) -> (r: bool)
    ensures
        !pattern@.contains('\\') && !path@.contains('\\') ==> r == glob_accepts(pattern@, path@),
{
    pattern.set.is_match(path)
}

/// A pattern that surely compiles.
pub open spec fn surely_builds(p: Seq<char>) -> bool {
    portable_pattern(p) && glob_pattern_builds(p)
}

/// A pattern that may compile: not too long, and either builds or is not
/// portable (so its fate depends on the platform).
pub open spec fn may_build(p: Seq<char>) -> bool {
    p.len() <= MAX_PATTERN_CHARS && (!portable_pattern(p) || glob_pattern_builds(p))
}

/// The texts of `ps` whose flag in `kept` is set, in order.
pub open spec fn kept_texts(ps: Seq<Seq<char>>, kept: Seq<bool>) -> Seq<Seq<char>>
    decreases ps.len(),
{
    if ps.len() == 0 {
        Seq::empty()
    } else {
        kept_texts(ps.drop_last(), kept.take(ps.len() - 1)) + if kept[ps.len() - 1] {
            seq![ps.last()]
        } else {
            Seq::empty()
        }
    }
}

/// The texts of compiled patterns.
pub open spec fn pattern_texts(ps: Seq<PathPattern>) -> Seq<Seq<char>> {
    ps.map_values(|p: PathPattern| p@)
}

/// The compiled patterns, in order, of the patterns that compile; the
/// others are skipped. Every portable pattern that builds is kept.
pub fn build_globset(patterns: &Vec<String>) -> (r: Vec<PathPattern>)
    ensures
        r@.len() <= patterns@.len(),
        exists|kept: Seq<bool>|
            {
                &&& kept.len() == patterns@.len()
                &&& forall|i: int|
                    0 <= i < kept.len() ==> (surely_builds(patterns@[i]@) ==> #[trigger] kept[i])
                        && (kept[i] ==> may_build(patterns@[i]@))
                &&& pattern_texts(r@) == kept_texts(patterns.deep_view(), kept)
            },
{
    let mut out: Vec<PathPattern> = Vec::new();
    let n = patterns.len();
    let ghost ps = patterns.deep_view();
    let ghost mut kept: Seq<bool> = Seq::empty();
    for i in 0..n
        invariant
            n == patterns@.len(),
            ps == patterns.deep_view(),
            kept.len() == i,
            out@.len() <= i,
            forall|q: int|
                0 <= q < i ==> (surely_builds(patterns@[q]@) ==> #[trigger] kept[q]) && (kept[q]
                    ==> may_build(patterns@[q]@)),
            pattern_texts(out@) == kept_texts(ps.take(i as int), kept),
    {
        let ghost before = out@;
        let ghost b: bool;
        let text = patterns[i].as_str();
        if text.unicode_len() <= MAX_PATTERN_CHARS {
            match compile_pattern(text) {
                Some(m) => {
                    out.push(m);
                    proof { b = true; }
                },
                None => {
                    proof { b = false; }
                },
            }
        } else {
            proof { b = false; }
        }
        proof {
            let k2 = kept.push(b);
            assert(ps.take(i + 1).drop_last() =~= ps.take(i as int));
            assert(k2.take(i as int) =~= kept);
            assert(ps.take(i + 1).last() == patterns@[i as int]@);
            assert(pattern_texts(out@) =~= kept_texts(ps.take(i + 1), k2));
            assert(surely_builds(patterns@[i as int]@) ==> b);
            assert(b ==> may_build(patterns@[i as int]@));
            assert forall|q: int| 0 <= q < i + 1 implies (surely_builds(patterns@[q]@) ==> #[trigger] k2[q])
                && (k2[q] ==> may_build(patterns@[q]@)) by {
                if q < i {
                    assert(k2[q] == kept[q]);
                }
            }
            kept = k2;
        }
    }
    assert(ps.take(n as int) =~= ps);
    out
}

/// A path is kept when some include pattern matches it (or there is none)
/// and no exclude pattern does.
pub open spec fn pattern_verdict_of(include_hits: Seq<bool>, exclude_hits: Seq<bool>) -> bool {
    &&& (include_hits.len() == 0 || exists|i: int| 0 <= i < include_hits.len() && include_hits[i])
    &&& !exists|j: int| 0 <= j < exclude_hits.len() && exclude_hits[j]
}

/// Decides on a path from which include and exclude patterns matched it.
pub fn pattern_verdict(include_hits: &Vec<bool>, exclude_hits: &Vec<bool>) -> (r: bool)
    ensures
        r == pattern_verdict_of(include_hits@, exclude_hits@),
{
    let n = include_hits.len();
    if n > 0 {
        let mut any = false;
        for i in 0..n
            invariant
                n == include_hits@.len(),
                any == exists|k: int| 0 <= k < i && include_hits@[k],
        {
            if include_hits[i] {
                any = true;
            }
        }
        if !any {
            return false;
        }
    }
    let m = exclude_hits.len();
    for j in 0..m
        invariant
            m == exclude_hits@.len(),
            forall|k: int| 0 <= k < j ==> !exclude_hits@[k],
    {
        if exclude_hits[j] {
            return false;
        }
    }
    true
}

/// A match result that agrees with `glob_accepts` wherever that name is
/// stated.
pub open spec fn hit_fits(pattern: Seq<char>, path: Seq<char>, hit: bool) -> bool {
    !pattern.contains('\\') && !path.contains('\\') ==> hit == glob_accepts(pattern, path)
}

/// Whether a path relative to the library root passes the library's
/// include and exclude patterns: some include pattern matches it (or there
/// is none) and no exclude pattern does.
pub fn matches_patterns(
    relative_path: &str,
    includes: &Vec<PathPattern>,
    excludes: &Vec<PathPattern>,
) -> (r: bool)
    ensures
        includes@.len() == 0 && excludes@.len() == 0 ==> r,
        exists|include_hits: Seq<bool>, exclude_hits: Seq<bool>|
            {
                &&& include_hits.len() == includes@.len()
                &&& exclude_hits.len() == excludes@.len()
                &&& forall|k: int|
                    0 <= k < include_hits.len() ==> hit_fits(includes@[k]@, relative_path@, #[trigger] include_hits[k])
                &&& forall|k: int|
                    0 <= k < exclude_hits.len() ==> hit_fits(excludes@[k]@, relative_path@, #[trigger] exclude_hits[k])
                &&& r == pattern_verdict_of(include_hits, exclude_hits)
            },
{
    let mut include_hits: Vec<bool> = Vec::new();
    let n = includes.len();
    for i in 0..n
        invariant
            n == includes@.len(),
            include_hits@.len() == i,
            forall|k: int| 0 <= k < i ==> hit_fits(includes@[k]@, relative_path@, #[trigger] include_hits@[k]),
    {
        include_hits.push(pattern_is_match(&includes[i], relative_path));
    }
    let mut exclude_hits: Vec<bool> = Vec::new();
    let m = excludes.len();
    for j in 0..m
        invariant
            m == excludes@.len(),
            exclude_hits@.len() == j,
            forall|k: int| 0 <= k < j ==> hit_fits(excludes@[k]@, relative_path@, #[trigger] exclude_hits@[k]),
    {
        exclude_hits.push(pattern_is_match(&excludes[j], relative_path));
    }
    pattern_verdict(&include_hits, &exclude_hits)
}

/// The include patterns of a new library: everything.
pub fn default_include_patterns() -> (r: Vec<String>)
    ensures
        r@.len() == 1,
        r@[0]@ == "**/*"@,
{
    let mut v: Vec<String> = Vec::new();
    v.push("**/*".to_string());
    v
}

/// The exclude patterns of a new library: dot files and OS thumbnail caches.
pub fn default_exclude_patterns() -> (r: Vec<String>)
    ensures
        r@.len() == 3,
        r@[0]@ == "**/.*"@,
        r@[1]@ == "**/Thumbs.db"@,
        r@[2]@ == "**/.DS_Store"@,
{
    let mut v: Vec<String> = Vec::new();
    v.push("**/.*".to_string());
    v.push("**/Thumbs.db".to_string());
    v.push("**/.DS_Store".to_string());
    v
}

// ---------------------------------------------------------------------------
// Paths and fingerprints
// ---------------------------------------------------------------------------

/// The Windows verbatim-path prefix `\\?\`.
pub open spec fn verbatim_prefix() -> Seq<char> {
    seq!['\\', '\\', '?', '\\']
}

/// `dunce::simplified` on a UTF-8 path, as text: the path itself, or, for
/// a verbatim disk path that can be written the legacy way (on Windows),
/// the path without its `\\?\` prefix.
#[verifier::external_body]
fn simplified_path(path: &str) -> (r: String)
    ensures
        r@ == path@ || (path@.len() >= 4 && path@.take(4) == verbatim_prefix() && r@ == path@.skip(4)),
{
    dunce::simplified(std::path::Path::new(path)).to_string_lossy().into_owned()
}

/// `s` with every `/` replaced by `\`.
pub open spec fn backslashed(s: Seq<char>) -> Seq<char> {
    s.map_values(|c: char| if c == '/' { '\\' } else { c })
}

/// The form under which a path is stored and compared: the legacy form of a
/// verbatim disk path where possible, with backslash separators.
pub fn normalize_path(path: &str) -> (r: String)
    ensures
        r@ == backslashed(path@) || (path@.len() >= 4 && path@.take(4) == verbatim_prefix()
            && r@ == backslashed(path@.skip(4))),
        !r@.contains('/'),
{
    let simple = simplified_path(path);
    let cs = crate::text::chars_of(simple.as_str());
    let mut out = String::new();
    let n = cs.len();
    for i in 0..n
        invariant
            n == cs@.len(),
            out@ == backslashed(cs@.take(i as int)),
    {
        let c = cs[i];
        push_char(&mut out, if c == '/' { '\\' } else { c });
        assert(out@ =~= backslashed(cs@.take(i + 1)));
    }
    assert(cs@.take(n as int) =~= cs@);
    proof {
        if out@.contains('/') {
            let k = choose|k: int| 0 <= k < out@.len() && out@[k] == '/';
            assert(false);
        }
    }
    out
}

/// The quick fingerprint of a file: its normalised path, size and
/// modification time, separated by `|`.
pub open spec fn fingerprint_text(path: Seq<char>, size: nat, modified: int) -> Seq<char> {
    path + seq!['|'] + crate::text::decimal(size) + seq!['|'] + crate::text::signed_decimal(modified)
}

/// The quick fingerprint of a file, enough to notice everyday changes.
pub fn quick_fingerprint(normalized_path: &str, size: u64, modified_ms: i64) -> (r: String)
    ensures
        r@ == fingerprint_text(normalized_path@, size as nat, modified_ms as int),
{
    let mut out = String::new();
    push_str(&mut out, normalized_path);
    push_char(&mut out, '|');
    push_decimal(&mut out, size);
    push_char(&mut out, '|');
    crate::text::push_signed(&mut out, modified_ms);
    out
}

/// A known file is analysed again when its fingerprint changed or its
/// asset is in error or offline.
pub open spec fn reindex_needed(existing: Seq<char>, new: Seq<char>, status: Seq<char>) -> bool {
    existing != new || status == "error"@ || status == "offline"@
}

/// Whether a known file has to be analysed again.
pub fn needs_reindex(existing_fingerprint: &str, new_fingerprint: &str, status: &str) -> (r: bool)
    ensures
        r == reindex_needed(existing_fingerprint@, new_fingerprint@, status@),
{
    !str_eq(existing_fingerprint, new_fingerprint) || str_eq(status, "error") || str_eq(status, "offline")
}

// ---------------------------------------------------------------------------
// Rescanning a known file
// ---------------------------------------------------------------------------

/// What a scan does with a file it finds.
#[derive(Debug, Clone, Copy, PartialEq, Eq, Structural)]
pub enum FileAction {
    /// Known and unchanged: only marked as seen.
    Unchanged,
    /// Known, unchanged, but offline: marked indexed again.
    Restore,
    /// New or changed: analysed (again).
    Analyse,
}

/// The action for a file with fingerprint `fingerprint` whose known asset
/// (if any) is `existing`.
pub open spec fn file_action(existing: Option<Asset>, fingerprint: Seq<char>) -> FileAction {
    match existing {
        None => FileAction::Analyse,
        Some(a) => if reindex_needed(a.quick_fingerprint@, fingerprint, a.status.name()) {
            FileAction::Analyse
        } else if a.status == AssetStatus::Offline {
            FileAction::Restore
        } else {
            FileAction::Unchanged
        },
    }
}

/// Decides what a scan does with a file it finds.
pub fn classify_file(existing: &Option<Asset>, fingerprint: &str) -> (r: FileAction)
    ensures
        r == file_action(*existing, fingerprint@),
{
    match existing {
        None => FileAction::Analyse,
        Some(a) => {
            if needs_reindex(a.quick_fingerprint.as_str(), fingerprint, a.status.as_str()) {
                FileAction::Analyse
            } else if a.status == AssetStatus::Offline {
                FileAction::Restore
            } else {
                FileAction::Unchanged
            }
        },
    }
}

/// A known offline asset found again unchanged: indexed from `now` on.
pub fn restored_asset(existing: &Asset, now: i64) -> (r: Asset)
    ensures
        r == (Asset { status: AssetStatus::Indexed, updated_at: now, ..*existing }),
{
    Asset {
        id: existing.id.clone(),
        library_id: existing.library_id.clone(),
        media_type: existing.media_type,
        file_path: existing.file_path.clone(),
        normalized_path: existing.normalized_path.clone(),
        file_name: existing.file_name.clone(),
        extension: existing.extension.clone(),
        size_bytes: existing.size_bytes,
        modified_at: existing.modified_at,
        quick_fingerprint: existing.quick_fingerprint.clone(),
        full_hash: existing.full_hash.clone(),
        duration_ms: existing.duration_ms,
        width: existing.width,
        height: existing.height,
        frame_rate: existing.frame_rate,
        codec: existing.codec.clone(),
        capture_time: existing.capture_time,
        status: AssetStatus::Indexed,
        index_level: existing.index_level,
        analysis_version: existing.analysis_version,
        created_at: existing.created_at,
        updated_at: now,
        thumbnail_data_url: existing.thumbnail_data_url.clone(),
    }
}

/// What the file system says about a file found by a scan.
#[derive(Debug, Clone)]
pub struct FileFacts {
    pub file_path: String,
    pub normalized_path: String,
    pub file_name: String,
    /// Lower-cased extension, empty when there is none.
    pub extension: String,
    pub size_bytes: i64,
    pub modified_at: i64,
    pub quick_fingerprint: String,
}

/// Metadata read from a media file by probing it.
#[derive(Debug, Clone)]
pub struct ProbeInfo {
    pub duration_ms: Option<i64>,
    pub width: Option<i32>,
    pub height: Option<i32>,
    pub frame_rate: Option<FrameRate>,
    pub codec: Option<String>,
}

/// The asset record for a new or changed file, once analysed: a known
/// asset keeps its id and creation time, a new one gets a fresh id created
/// at `now`; probe data fills the media fields (video and audio), image
/// dimensions the size of an image.
pub open spec fn analysed_asset(
    library_id: Seq<char>,
    facts: FileFacts,
    existing: Option<Asset>,
    probe: Option<ProbeInfo>,
    dimensions: Option<(i32, i32)>,
    now: i64,
    a: Asset,
) -> bool {
    let media = MediaType::for_lower_extension(lowercase(facts.extension@));
    &&& a.library_id@ == library_id
    &&& a.media_type == media
    &&& a.file_path == facts.file_path
    &&& a.normalized_path == facts.normalized_path
    &&& a.file_name == facts.file_name
    &&& a.extension == facts.extension
    &&& a.size_bytes == facts.size_bytes
    &&& a.modified_at == facts.modified_at
    &&& a.quick_fingerprint == facts.quick_fingerprint
    &&& a.full_hash is None
    &&& match existing {
        Some(e) => a.id == e.id && a.created_at == e.created_at,
        None => a.id@.len() == 36 && a.created_at == now,
    }
    &&& a.updated_at == now
    &&& (if media == MediaType::Image {
        a.duration_ms is None && a.frame_rate is None && a.codec is None && match dimensions {
            Some((w, h)) => a.width == Some(w) && a.height == Some(h),
            None => a.width is None && a.height is None,
        }
    } else {
        match probe {
            Some(p) => a.duration_ms == p.duration_ms && a.width == p.width && a.height == p.height
                && a.frame_rate == p.frame_rate && a.codec == p.codec,
            None => a.duration_ms is None && a.width is None && a.height is None && a.frame_rate is None
                && a.codec is None,
        }
    })
    &&& a.capture_time is None
    &&& a.status == AssetStatus::Indexed
    &&& a.index_level == 1
    &&& a.analysis_version == 1
    &&& a.thumbnail_data_url is None
}

/// Builds the record of a new or changed file after probing it.
pub fn analysed_asset_record(
    library_id: &str,
    facts: &FileFacts,
    existing: &Option<Asset>,
    probe: &Option<ProbeInfo>,
    dimensions: Option<(i32, i32)>,
    now: i64,
) -> (r: Asset)
    ensures
        analysed_asset(library_id@, *facts, *existing, *probe, dimensions, now, r),
{
    let media_type = MediaType::from_extension(facts.extension.as_str());
    let (id, created_at) = match existing {
        Some(e) => (e.id.clone(), e.created_at),
        None => (crate::models::new_random_id(), now),
    };
    let mut asset = Asset {
        id,
        library_id: library_id.to_string(),
        media_type,
        file_path: facts.file_path.clone(),
        normalized_path: facts.normalized_path.clone(),
        file_name: facts.file_name.clone(),
        extension: facts.extension.clone(),
        size_bytes: facts.size_bytes,
        modified_at: facts.modified_at,
        quick_fingerprint: facts.quick_fingerprint.clone(),
        full_hash: None,
        duration_ms: None,
        width: None,
        height: None,
        frame_rate: None,
        codec: None,
        capture_time: None,
        status: AssetStatus::Indexed,
        index_level: 1,
        analysis_version: 1,
        created_at,
        updated_at: now,
        thumbnail_data_url: None,
    };
    match media_type {
        MediaType::Image => {
            match dimensions {
                Some((w, h)) => {
                    asset.width = Some(w);
                    asset.height = Some(h);
                },
                None => {},
            }
        },
        _ => {
            match probe {
                Some(p) => {
                    asset.duration_ms = p.duration_ms;
                    asset.width = p.width;
                    asset.height = p.height;
                    asset.frame_rate = p.frame_rate;
                    asset.codec = p.codec.clone();
                },
                None => {},
            }
        },
    }
    asset
}

/// The image a new asset's visual embedding is computed from: the file
/// itself for an image, the cover thumbnail for a video, none for audio.
pub fn embedding_source(media_type: MediaType, file_path: &str, thumbnail: Option<String>) -> (r: Option<String>)
    ensures
        match media_type {
            MediaType::Image => r matches Some(p) && p@ == file_path@,
            MediaType::Video => r == thumbnail,
            MediaType::Audio => r is None,
        },
{
    match media_type {
        MediaType::Image => Some(file_path.to_string()),
        MediaType::Video => thumbnail,
        MediaType::Audio => None,
    }
}

// ---------------------------------------------------------------------------
// Scanner
// ---------------------------------------------------------------------------

/// What a file's analysis did, for the scan's counts.
#[derive(Debug, Clone, Copy, PartialEq, Eq, Structural)]
pub enum FileOutcome {
    Changed,
    Unchanged,
    Failed,
}

/// Thumbnail generation for assets, rooted in the cache.
#[derive(Debug, Clone)]
pub struct ThumbnailService {
    cache: CacheManager,
}

impl ThumbnailService {
    pub closed spec fn cache_root(self) -> Seq<char> {
        self.cache.root_view()
    }

    /// A service writing under `cache`'s root.
    pub fn new(cache: CacheManager) -> (r: ThumbnailService)
        ensures
            r.cache_root() == cache.root_view(),
    {
        ThumbnailService { cache }
    }

    /// Where an asset's cover thumbnail goes.
    pub fn cover_path(&self, asset_id: &str) -> (r: String)
        ensures
            crate::cache::cache_file(self.cache_root(), "thumbnails"@, asset_id@ + seq!['_'] + "cover"@ + ".jpg"@, r@),
    {
        self.cache.thumbnail_path(asset_id, "cover")
    }

    /// Whether a cached file name belongs to an asset's derivatives: its
    /// cover and its per-segment keyframes and previews are named after
    /// the asset id followed by `_` or `.`.
    pub fn is_derivative_of(file_name: &str, asset_id: &str) -> (r: bool)
        ensures
            r == (crate::text::occurs_at(file_name@, asset_id@ + seq!['_'], 0)
                || crate::text::occurs_at(file_name@, asset_id@ + seq!['.'], 0)),
    {
        let mut a = String::new();
        push_str(&mut a, asset_id);
        push_char(&mut a, '_');
        let mut b = String::new();
        push_str(&mut b, asset_id);
        push_char(&mut b, '.');
        let f = crate::text::chars_of(file_name);
        let x = crate::text::chars_of(a.as_str());
        let y = crate::text::chars_of(b.as_str());
        assert(x@ =~= asset_id@ + seq!['_']);
        assert(y@ =~= asset_id@ + seq!['.']);
        let n = f.len();
        let ok_a = x.len() <= n && crate::text::matches_at(&f, &x, 0);
        let ok_b = y.len() <= n && crate::text::matches_at(&f, &y, 0);
        ok_a || ok_b
    }
}

/// The scanner's own state: the thumbnail service it renders covers with.
#[derive(Debug, Clone)]
pub struct Scanner {
    thumbnail: ThumbnailService,
}

impl Scanner {
    pub closed spec fn cache_root(self) -> Seq<char> {
        self.thumbnail.cache_root()
    }

    /// A scanner whose thumbnails go under `cache`'s root.
    pub fn new(cache: &CacheManager) -> (r: Scanner)
        ensures
            r.cache_root() == cache.root_view(),
    {
        let thumb_cache = CacheManager::new(cache.root());
        Scanner { thumbnail: ThumbnailService::new(thumb_cache) }
    }

    /// The thumbnail service.
    pub fn thumbnail(&self) -> (r: &ThumbnailService)
        ensures
            r.cache_root() == self.cache_root(),
    {
        &self.thumbnail
    }

    /// Counts the outcome of one file in the scan summary.
    pub fn record(summary: &mut crate::models::ScanSummary, outcome: FileOutcome)
        requires
            old(summary).changed < usize::MAX,
            old(summary).unchanged < usize::MAX,
            old(summary).errors < usize::MAX,
        ensures
            final(summary).removed == old(summary).removed,
            final(summary).changed == old(summary).changed + if outcome == FileOutcome::Changed { 1int } else { 0 },
            final(summary).unchanged == old(summary).unchanged + if outcome == FileOutcome::Unchanged { 1int } else { 0 },
            final(summary).errors == old(summary).errors + if outcome == FileOutcome::Failed { 1int } else { 0 },
    {
        match outcome {
            FileOutcome::Changed => summary.changed = summary.changed + 1,
            FileOutcome::Unchanged => summary.unchanged = summary.unchanged + 1,
            FileOutcome::Failed => summary.errors = summary.errors + 1,
        }
    }
}

// ---------------------------------------------------------------------------
// Content hash
// ---------------------------------------------------------------------------

/// The 32-byte BLAKE3 digest of a byte string.
pub uninterp spec fn blake3_digest(input: Seq<u8>) -> Seq<u8>;

#[verifier::external_type_specification]
#[verifier::external_body]
pub struct ExBlake3Hasher(blake3::Hasher);

/// Lower-case hexadecimal digit.
pub open spec fn lower_hex_digit(d: int) -> char {
    if d < 10 { (0x30 + d) as char } else { (0x61 + d - 10) as char }
}

/// Lower-case hexadecimal of a byte string, two digits per byte.
pub open spec fn lower_hex(bs: Seq<u8>) -> Seq<char>
    decreases bs.len(),
{
    if bs.len() == 0 {
        Seq::empty()
    } else {
        lower_hex(bs.drop_last()) + seq![lower_hex_digit((bs.last() / 16) as int), lower_hex_digit((bs.last() % 16) as int)]
    }
}

/// Incremental BLAKE3 hashing of a file's content, fed chunk by chunk.
pub struct ContentHasher {
    hasher: blake3::Hasher,
    fed: Ghost<Seq<u8>>,
}

impl ContentHasher {
    /// The bytes fed so far.
    pub closed spec fn input(self) -> Seq<u8> {
        self.fed@
    }

    /// `blake3::Hasher::new`: a hasher that has seen nothing.
    #[verifier::external_body]
    pub fn new() -> (r: ContentHasher)
        ensures
            r.input() == Seq::<u8>::empty(),
    {
        ContentHasher { hasher: blake3::Hasher::new(), fed: Ghost(Seq::empty()) }
    }

    /// `blake3::Hasher::update`: feeds more bytes; BLAKE3's incremental
    /// hashing equals hashing the concatenation of everything fed.
    #[verifier::external_body]
    pub fn update(&mut self, chunk: &[u8])
        ensures
            final(self).input() == old(self).input() + chunk@,
    {
        self.hasher.update(chunk);
    }

    /// `finalize().to_hex()`: the lower-case hex of the digest of
    /// everything fed (64 characters).
    #[verifier::external_body]
    pub fn finalize_hex(&self) -> (r: String)
        ensures
            r@ == lower_hex(blake3_digest(self.input())),
    {
        self.hasher.finalize().to_hex().to_string()
    }
}

/// The content hash of a whole byte string, used to recognise renamed or
/// moved files.
pub fn content_hash(bytes: &[u8]) -> (r: String)
    ensures
        r@ == lower_hex(blake3_digest(bytes@)),
{
    let mut h = ContentHasher::new();
    h.update(bytes);
    assert(Seq::<u8>::empty() + bytes@ =~= bytes@);
    h.finalize_hex()
}

} // verus!
