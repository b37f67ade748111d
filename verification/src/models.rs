//! Media, job and library vocabularies with their persisted names, and the
//! plain records that the rest of the library exchanges.

use vstd::prelude::*;

use crate::jobs::Job;
use crate::text::{lowercase, push_str, str_eq, to_lowercase};

verus! {

// ---------------------------------------------------------------------------
// MediaType
// ---------------------------------------------------------------------------

#[derive(Debug, Clone, Copy, PartialEq, Eq, Structural)]
pub enum MediaType {
    Image,
    Video,
    Audio,
}

impl MediaType {
    /// The persisted name of each media type.
    pub open spec fn name(self) -> Seq<char> {
        match self {
            MediaType::Image => "image"@,
            MediaType::Video => "video"@,
            MediaType::Audio => "audio"@,
        }
    }

    /// The media type persisted under `s`, if any.
    pub open spec fn named(s: Seq<char>) -> Option<MediaType> {
        if s == "image"@ {
            Some(MediaType::Image)
        } else if s == "video"@ {
            Some(MediaType::Video)
        } else if s == "audio"@ {
            Some(MediaType::Audio)
        } else {
            None
        }
    }

    pub fn as_str(&self) -> (r: &'static str)
        ensures
            r@ == self.name(),
    {
        match self {
            MediaType::Image => "image",
            MediaType::Video => "video",
            MediaType::Audio => "audio",
        }
    }

    /// Reads a persisted media type name; unknown names are reported.
    pub fn parse(value: &str) -> (r: Result<MediaType, String>)
        ensures
            r matches Ok(t) ==> MediaType::named(value@) == Some(t),
            r matches Err(msg) ==> MediaType::named(value@) is None && msg@ == "未知媒体类型: "@
                + value@,
    {
        if str_eq(value, "image") {
            Ok(MediaType::Image)
        } else if str_eq(value, "video") {
            Ok(MediaType::Video)
        } else if str_eq(value, "audio") {
            Ok(MediaType::Audio)
        } else {
            let mut msg = String::new();
            push_str(&mut msg, "未知媒体类型: ");
            push_str(&mut msg, value);
            Err(msg)
        }
    }

    /// Classification of an already lower-cased file extension.
    pub open spec fn for_lower_extension(e: Seq<char>) -> MediaType {
        if is_image_extension(e) {
            MediaType::Image
        } else if is_video_extension(e) {
            MediaType::Video
        } else {
            MediaType::Audio
        }
    }

    /// Classifies a file extension (case-insensitively); anything that is not
    /// a known image or video extension counts as audio.
    pub fn from_extension(ext: &str) -> (r: MediaType)
        ensures
            r == MediaType::for_lower_extension(lowercase(ext@)),
    {
        let lower = to_lowercase(ext);
        let e = lower.as_str();
        if image_extension(e) {
            MediaType::Image
        } else if video_extension(e) {
            MediaType::Video
        } else {
            MediaType::Audio
        }
    }
}

/// Image file extensions that the scanner recognises (lower case).
pub open spec fn is_image_extension(e: Seq<char>) -> bool {
    e == "jpg"@ || e == "jpeg"@ || e == "png"@ || e == "gif"@ || e == "webp"@ || e == "bmp"@
        || e == "tiff"@ || e == "tif"@ || e == "heic"@ || e == "heif"@ || e == "avif"@ || e
        == "jxl"@
}

/// Video file extensions that the scanner recognises (lower case).
pub open spec fn is_video_extension(e: Seq<char>) -> bool {
    e == "mp4"@ || e == "mov"@ || e == "mkv"@ || e == "avi"@ || e == "wmv"@ || e == "flv"@ || e
        == "webm"@ || e == "m4v"@ || e == "mpg"@ || e == "mpeg"@ || e == "mts"@ || e == "m2ts"@
        || e == "ts"@
}

pub fn image_extension(e: &str) -> (r: bool)
    ensures
        r == is_image_extension(e@),
{
    str_eq(e, "jpg") || str_eq(e, "jpeg") || str_eq(e, "png") || str_eq(e, "gif") || str_eq(
        e,
        "webp",
    ) || str_eq(e, "bmp") || str_eq(e, "tiff") || str_eq(e, "tif") || str_eq(e, "heic")
        || str_eq(e, "heif") || str_eq(e, "avif") || str_eq(e, "jxl")
}

pub fn video_extension(e: &str) -> (r: bool)
    ensures
        r == is_video_extension(e@),
{
    str_eq(e, "mp4") || str_eq(e, "mov") || str_eq(e, "mkv") || str_eq(e, "avi") || str_eq(
        e,
        "wmv",
    ) || str_eq(e, "flv") || str_eq(e, "webm") || str_eq(e, "m4v") || str_eq(e, "mpg")
        || str_eq(e, "mpeg") || str_eq(e, "mts") || str_eq(e, "m2ts") || str_eq(e, "ts")
}

// ---------------------------------------------------------------------------
// AssetStatus
// ---------------------------------------------------------------------------

#[derive(Debug, Clone, Copy, PartialEq, Eq, Structural)]
pub enum AssetStatus {
    Pending,
    Indexed,
    Failed,
    Offline,
}

impl AssetStatus {
    /// The persisted name; a failed asset is stored as `error`.
    pub open spec fn name(self) -> Seq<char> {
        match self {
            AssetStatus::Pending => "pending"@,
            AssetStatus::Indexed => "indexed"@,
            AssetStatus::Failed => "error"@,
            AssetStatus::Offline => "offline"@,
        }
    }

    pub open spec fn named(s: Seq<char>) -> Option<AssetStatus> {
        if s == "pending"@ {
            Some(AssetStatus::Pending)
        } else if s == "indexed"@ {
            Some(AssetStatus::Indexed)
        } else if s == "error"@ {
            Some(AssetStatus::Failed)
        } else if s == "offline"@ {
            Some(AssetStatus::Offline)
        } else {
            None
        }
    }

    pub fn as_str(&self) -> (r: &'static str)
        ensures
            r@ == self.name(),
    {
        match self {
            AssetStatus::Pending => "pending",
            AssetStatus::Indexed => "indexed",
            AssetStatus::Failed => "error",
            AssetStatus::Offline => "offline",
        }
    }

    pub fn parse(value: &str) -> (r: Result<AssetStatus, String>)
        ensures
            r matches Ok(t) ==> AssetStatus::named(value@) == Some(t),
            r matches Err(msg) ==> AssetStatus::named(value@) is None && msg@ == "未知素材状态: "@
                + value@,
    {
        if str_eq(value, "pending") {
            Ok(AssetStatus::Pending)
        } else if str_eq(value, "indexed") {
            Ok(AssetStatus::Indexed)
        } else if str_eq(value, "error") {
            Ok(AssetStatus::Failed)
        } else if str_eq(value, "offline") {
            Ok(AssetStatus::Offline)
        } else {
            let mut msg = String::new();
            push_str(&mut msg, "未知素材状态: ");
            push_str(&mut msg, value);
            Err(msg)
        }
    }
}

// ---------------------------------------------------------------------------
// JobStatus and JobType
// ---------------------------------------------------------------------------

#[derive(Debug, Clone, Copy, PartialEq, Eq, Structural)]
pub enum JobStatus {
    Pending,
    Running,
    Paused,
    Completed,
    Failed,
    Cancelled,
}

impl JobStatus {
    pub open spec fn name(self) -> Seq<char> {
        match self {
            JobStatus::Pending => "pending"@,
            JobStatus::Running => "running"@,
            JobStatus::Paused => "paused"@,
            JobStatus::Completed => "completed"@,
            JobStatus::Failed => "failed"@,
            JobStatus::Cancelled => "cancelled"@,
        }
    }

    pub open spec fn named(s: Seq<char>) -> Option<JobStatus> {
        if s == "pending"@ {
            Some(JobStatus::Pending)
        } else if s == "running"@ {
            Some(JobStatus::Running)
        } else if s == "paused"@ {
            Some(JobStatus::Paused)
        } else if s == "completed"@ {
            Some(JobStatus::Completed)
        } else if s == "failed"@ {
            Some(JobStatus::Failed)
        } else if s == "cancelled"@ {
            Some(JobStatus::Cancelled)
        } else {
            None
        }
    }

    pub fn as_str(&self) -> (r: &'static str)
        ensures
            r@ == self.name(),
    {
        match self {
            JobStatus::Pending => "pending",
            JobStatus::Running => "running",
            JobStatus::Paused => "paused",
            JobStatus::Completed => "completed",
            JobStatus::Failed => "failed",
            JobStatus::Cancelled => "cancelled",
        }
    }

    pub fn parse(value: &str) -> (r: Result<JobStatus, String>)
        ensures
            r matches Ok(t) ==> JobStatus::named(value@) == Some(t),
            r matches Err(msg) ==> JobStatus::named(value@) is None && msg@ == "未知任务状态: "@
                + value@,
    {
        if str_eq(value, "pending") {
            Ok(JobStatus::Pending)
        } else if str_eq(value, "running") {
            Ok(JobStatus::Running)
        } else if str_eq(value, "paused") {
            Ok(JobStatus::Paused)
        } else if str_eq(value, "completed") {
            Ok(JobStatus::Completed)
        } else if str_eq(value, "failed") {
            Ok(JobStatus::Failed)
        } else if str_eq(value, "cancelled") {
            Ok(JobStatus::Cancelled)
        } else {
            let mut msg = String::new();
            push_str(&mut msg, "未知任务状态: ");
            push_str(&mut msg, value);
            Err(msg)
        }
    }
}

#[derive(Debug, Clone, Copy, PartialEq, Eq, Structural)]
pub enum JobType {
    Scan,
    Thumbnail,
    ShotDetect,
    Index,
}

impl JobType {
    pub open spec fn name(self) -> Seq<char> {
        match self {
            JobType::Scan => "scan"@,
            JobType::Thumbnail => "thumbnail"@,
            JobType::ShotDetect => "shot_detect"@,
            JobType::Index => "index"@,
        }
    }

    pub open spec fn named(s: Seq<char>) -> Option<JobType> {
        if s == "scan"@ {
            Some(JobType::Scan)
        } else if s == "thumbnail"@ {
            Some(JobType::Thumbnail)
        } else if s == "shot_detect"@ {
            Some(JobType::ShotDetect)
        } else if s == "index"@ {
            Some(JobType::Index)
        } else {
            None
        }
    }

    pub fn as_str(&self) -> (r: &'static str)
        ensures
            r@ == self.name(),
    {
        match self {
            JobType::Scan => "scan",
            JobType::Thumbnail => "thumbnail",
            JobType::ShotDetect => "shot_detect",
            JobType::Index => "index",
        }
    }

    pub fn parse(value: &str) -> (r: Result<JobType, String>)
        ensures
            r matches Ok(t) ==> JobType::named(value@) == Some(t),
            r matches Err(msg) ==> JobType::named(value@) is None && msg@ == "未知任务类型: "@
                + value@,
    {
        if str_eq(value, "scan") {
            Ok(JobType::Scan)
        } else if str_eq(value, "thumbnail") {
            Ok(JobType::Thumbnail)
        } else if str_eq(value, "shot_detect") {
            Ok(JobType::ShotDetect)
        } else if str_eq(value, "index") {
            Ok(JobType::Index)
        } else {
            let mut msg = String::new();
            push_str(&mut msg, "未知任务类型: ");
            push_str(&mut msg, value);
            Err(msg)
        }
    }
}

// ---------------------------------------------------------------------------
// LibraryStatus and IndexProfile
// ---------------------------------------------------------------------------

#[derive(Debug, Clone, Copy, PartialEq, Eq, Structural)]
pub enum LibraryStatus {
    Idle,
    Scanning,
    Paused,
    Failed,
}

impl LibraryStatus {
    /// The persisted name; a failed library is stored as `error`.
    pub open spec fn name(self) -> Seq<char> {
        match self {
            LibraryStatus::Idle => "idle"@,
            LibraryStatus::Scanning => "scanning"@,
            LibraryStatus::Paused => "paused"@,
            LibraryStatus::Failed => "error"@,
        }
    }

    pub open spec fn named(s: Seq<char>) -> Option<LibraryStatus> {
        if s == "idle"@ {
            Some(LibraryStatus::Idle)
        } else if s == "scanning"@ {
            Some(LibraryStatus::Scanning)
        } else if s == "paused"@ {
            Some(LibraryStatus::Paused)
        } else if s == "error"@ {
            Some(LibraryStatus::Failed)
        } else {
            None
        }
    }

    pub fn as_str(&self) -> (r: &'static str)
        ensures
            r@ == self.name(),
    {
        match self {
            LibraryStatus::Idle => "idle",
            LibraryStatus::Scanning => "scanning",
            LibraryStatus::Paused => "paused",
            LibraryStatus::Failed => "error",
        }
    }

    pub fn parse(value: &str) -> (r: Result<LibraryStatus, String>)
        ensures
            r matches Ok(t) ==> LibraryStatus::named(value@) == Some(t),
            r matches Err(msg) ==> LibraryStatus::named(value@) is None && msg@
                == "未知素材库状态: "@ + value@,
    {
        if str_eq(value, "idle") {
            Ok(LibraryStatus::Idle)
        } else if str_eq(value, "scanning") {
            Ok(LibraryStatus::Scanning)
        } else if str_eq(value, "paused") {
            Ok(LibraryStatus::Paused)
        } else if str_eq(value, "error") {
            Ok(LibraryStatus::Failed)
        } else {
            let mut msg = String::new();
            push_str(&mut msg, "未知素材库状态: ");
            push_str(&mut msg, value);
            Err(msg)
        }
    }
}

#[derive(Debug, Clone, Copy, PartialEq, Eq, Structural)]
pub enum IndexProfile {
    Quick,
    Balanced,
    Precise,
}

impl IndexProfile {
    pub open spec fn name(self) -> Seq<char> {
        match self {
            IndexProfile::Quick => "quick"@,
            IndexProfile::Balanced => "balanced"@,
            IndexProfile::Precise => "precise"@,
        }
    }

    pub open spec fn named(s: Seq<char>) -> Option<IndexProfile> {
        if s == "quick"@ {
            Some(IndexProfile::Quick)
        } else if s == "balanced"@ {
            Some(IndexProfile::Balanced)
        } else if s == "precise"@ {
            Some(IndexProfile::Precise)
        } else {
            None
        }
    }

    pub fn as_str(&self) -> (r: &'static str)
        ensures
            r@ == self.name(),
    {
        match self {
            IndexProfile::Quick => "quick",
            IndexProfile::Balanced => "balanced",
            IndexProfile::Precise => "precise",
        }
    }

    pub fn parse(value: &str) -> (r: Result<IndexProfile, String>)
        ensures
            r matches Ok(t) ==> IndexProfile::named(value@) == Some(t),
            r matches Err(msg) ==> IndexProfile::named(value@) is None && msg@
                == "未知索引模式: "@ + value@,
    {
        if str_eq(value, "quick") {
            Ok(IndexProfile::Quick)
        } else if str_eq(value, "balanced") {
            Ok(IndexProfile::Balanced)
        } else if str_eq(value, "precise") {
            Ok(IndexProfile::Precise)
        } else {
            let mut msg = String::new();
            push_str(&mut msg, "未知索引模式: ");
            push_str(&mut msg, value);
            Err(msg)
        }
    }
}

// ---------------------------------------------------------------------------
// Laws: every persisted name reads back as the value that wrote it
// ---------------------------------------------------------------------------

/// Reading back the persisted name of a media type gives that media type.
pub proof fn law_media_type_name_round_trip(t: MediaType)
    ensures
        MediaType::named(t.name()) == Some(t),
{
    reveal_strlit("image");
    reveal_strlit("video");
    reveal_strlit("audio");
    assert("video"@[0] != "image"@[0]);
    assert("audio"@[0] != "image"@[0]);
    assert("audio"@[0] != "video"@[0]);
}

/// Reading back the persisted name of an asset status gives that status.
pub proof fn law_asset_status_name_round_trip(t: AssetStatus)
    ensures
        AssetStatus::named(t.name()) == Some(t),
{
    reveal_strlit("pending");
    reveal_strlit("indexed");
    reveal_strlit("error");
    reveal_strlit("offline");
    assert("indexed"@[0] != "pending"@[0]);
    assert("error"@[0] != "pending"@[0]);
    assert("error"@[0] != "indexed"@[0]);
    assert("offline"@[0] != "pending"@[0]);
    assert("offline"@[0] != "indexed"@[0]);
    assert("offline"@[0] != "error"@[0]);
}

/// Reading back the persisted name of a job status gives that status.
pub proof fn law_job_status_name_round_trip(t: JobStatus)
    ensures
        JobStatus::named(t.name()) == Some(t),
{
    reveal_strlit("pending");
    reveal_strlit("running");
    reveal_strlit("paused");
    reveal_strlit("completed");
    reveal_strlit("failed");
    reveal_strlit("cancelled");
    assert("running"@[0] != "pending"@[0]);
    assert("paused"@[1] != "pending"@[1]);
    assert("paused"@[0] != "running"@[0]);
    assert("completed"@[0] != "pending"@[0]);
    assert("completed"@[0] != "running"@[0]);
    assert("completed"@[0] != "paused"@[0]);
    assert("failed"@[0] != "pending"@[0]);
    assert("failed"@[0] != "running"@[0]);
    assert("failed"@[0] != "paused"@[0]);
    assert("failed"@[0] != "completed"@[0]);
    assert("cancelled"@[0] != "pending"@[0]);
    assert("cancelled"@[0] != "running"@[0]);
    assert("cancelled"@[0] != "paused"@[0]);
    assert("cancelled"@[1] != "completed"@[1]);
    assert("cancelled"@[0] != "failed"@[0]);
}

/// Reading back the persisted name of a job type gives that job type.
pub proof fn law_job_type_name_round_trip(t: JobType)
    ensures
        JobType::named(t.name()) == Some(t),
{
    reveal_strlit("scan");
    reveal_strlit("thumbnail");
    reveal_strlit("shot_detect");
    reveal_strlit("index");
    assert("thumbnail"@[0] != "scan"@[0]);
    assert("shot_detect"@[1] != "scan"@[1]);
    assert("shot_detect"@[0] != "thumbnail"@[0]);
    assert("index"@[0] != "scan"@[0]);
    assert("index"@[0] != "thumbnail"@[0]);
    assert("index"@[0] != "shot_detect"@[0]);
}

/// Reading back the persisted name of a library status gives that status.
pub proof fn law_library_status_name_round_trip(t: LibraryStatus)
    ensures
        LibraryStatus::named(t.name()) == Some(t),
{
    reveal_strlit("idle");
    reveal_strlit("scanning");
    reveal_strlit("paused");
    reveal_strlit("error");
    assert("scanning"@[0] != "idle"@[0]);
    assert("paused"@[0] != "idle"@[0]);
    assert("paused"@[0] != "scanning"@[0]);
    assert("error"@[0] != "idle"@[0]);
    assert("error"@[0] != "scanning"@[0]);
    assert("error"@[0] != "paused"@[0]);
}

/// Reading back the persisted name of an index profile gives that profile.
pub proof fn law_index_profile_name_round_trip(t: IndexProfile)
    ensures
        IndexProfile::named(t.name()) == Some(t),
{
    reveal_strlit("quick");
    reveal_strlit("balanced");
    reveal_strlit("precise");
    assert("balanced"@[0] != "quick"@[0]);
    assert("precise"@[0] != "quick"@[0]);
    assert("precise"@[0] != "balanced"@[0]);
}


// ---------------------------------------------------------------------------
// Records
// ---------------------------------------------------------------------------

/// A lower-case hexadecimal digit.
pub open spec fn lower_hex_char(c: char) -> bool {
    ('0' <= c && c <= '9') || ('a' <= c && c <= 'f')
}

/// The hyphenated lower-case text of a version-4 (random) UUID: 36
/// characters, hyphens at 8, 13, 18 and 23, hexadecimal digits elsewhere,
/// the version digit `4` at 14 and the RFC 4122 variant (`8` to `b`) at 19.
pub open spec fn uuid_v4_text(s: Seq<char>) -> bool {
    &&& s.len() == 36
    &&& forall|i: int|
        0 <= i < 36 ==> if i == 8 || i == 13 || i == 18 || i == 23 {
            #[trigger] s[i] == '-'
        } else {
            lower_hex_char(s[i])
        }
    &&& s[14] == '4'
    &&& (s[19] == '8' || s[19] == '9' || s[19] == 'a' || s[19] == 'b')
}

/// `uuid::Uuid::new_v4` in its hyphenated lower-case text form (its
/// `Display`): the format is stated, the random bits are not.
#[verifier::external_body]
pub(crate) fn new_random_id() -> (r: String)
    ensures
        r@.len() == 36,
        uuid_v4_text(r@),
{
    uuid::Uuid::new_v4().to_string()
}

/// The frame rate of a probed video as FCPXML expresses a frame duration:
/// the three NTSC rates, or a whole number of frames per second in 1..=240.
/// The app derives it from the probed floating-point rate.
#[derive(Debug, Clone, Copy, PartialEq, Eq, Structural)]
pub enum FrameRate {
    Ntsc24,
    Ntsc30,
    Ntsc60,
    Whole(u32),
}

impl FrameRate {
    pub open spec fn valid(self) -> bool {
        match self {
            FrameRate::Whole(n) => 1 <= n <= 240,
            _ => true,
        }
    }
}

/// One media file known to a library.
#[derive(Debug, Clone)]
pub struct Asset {
    pub id: String,
    pub library_id: String,
    pub media_type: MediaType,
    pub file_path: String,
    pub normalized_path: String,
    pub file_name: String,
    pub extension: String,
    pub size_bytes: i64,
    pub modified_at: i64,
    pub quick_fingerprint: String,
    pub full_hash: Option<String>,
    pub duration_ms: Option<i64>,
    pub width: Option<i32>,
    pub height: Option<i32>,
    /// The probed frame rate, when it is a valid one.
    pub frame_rate: Option<FrameRate>,
    pub codec: Option<String>,
    pub capture_time: Option<i64>,
    pub status: AssetStatus,
    pub index_level: i32,
    pub analysis_version: i32,
    pub created_at: i64,
    pub updated_at: i64,
    pub thumbnail_data_url: Option<String>,
}

#[derive(Debug, Clone)]
pub struct Library {
    pub id: String,
    pub name: String,
    pub root_path: String,
    pub status: LibraryStatus,
    pub index_profile: IndexProfile,
    pub include_patterns: Vec<String>,
    pub exclude_patterns: Vec<String>,
    pub watch_enabled: bool,
    pub last_scan_at: Option<i64>,
    pub created_at: i64,
    pub updated_at: i64,
}

#[derive(Debug, Clone)]
pub struct CreateLibraryRequest {
    pub name: String,
    pub root_path: String,
    pub index_profile: Option<IndexProfile>,
    pub include_patterns: Option<Vec<String>>,
    pub exclude_patterns: Option<Vec<String>>,
}

#[derive(Debug, Clone)]
pub struct ReconnectLibraryRequest {
    pub library_id: String,
    pub root_path: String,
}

#[derive(Debug, Clone)]
pub struct Entity {
    pub id: String,
    pub entity_type: String,
    pub name: String,
    pub description: Option<String>,
    pub aliases: Vec<String>,
    pub pack_id: Option<String>,
    pub created_at: i64,
    pub updated_at: i64,
}

#[derive(Debug, Clone)]
pub struct EntityReference {
    pub id: String,
    pub entity_id: String,
    pub asset_id: Option<String>,
    pub image_path: Option<String>,
    pub is_positive: bool,
    pub created_at: i64,
}

#[derive(Debug, Clone)]
pub struct CreateEntityRequest {
    pub entity_type: String,
    pub name: String,
    pub description: Option<String>,
    pub aliases: Vec<String>,
}

#[derive(Debug, Clone)]
pub struct SelectCollection {
    pub id: String,
    pub name: String,
    pub description: Option<String>,
    pub created_at: i64,
    pub updated_at: i64,
}

#[derive(Debug, Clone)]
pub struct CreateSelectCollectionRequest {
    pub name: String,
    pub description: Option<String>,
}

#[derive(Debug, Clone)]
pub struct UpdateSelectItemRequest {
    pub rating: Option<i32>,
    pub note: Option<String>,
    pub recommended_in_ms: Option<i64>,
    pub recommended_out_ms: Option<i64>,
}

/// One analysed span of a video (or the whole of a still image). The
/// floating-point quality scores are kept by the caller; the flags derived
/// from them travel with the search functions.
#[derive(Debug, Clone)]
pub struct Segment {
    pub id: String,
    pub asset_id: String,
    pub segment_type: String,
    pub segment_index: i32,
    pub start_ms: i64,
    pub end_ms: i64,
    pub duration_ms: i64,
    pub representative_frame_path: Option<String>,
    pub thumbnail_path: Option<String>,
    pub thumbnail_data_url: Option<String>,
    pub preview_path: Option<String>,
    pub subtitle_present: Option<bool>,
    pub game_ui: Option<bool>,
    pub embedding_ref: Option<String>,
    pub created_at: i64,
    pub updated_at: i64,
}

/// An asset, or one segment of it, placed in a select collection.
#[derive(Debug, Clone)]
pub struct SelectItem {
    pub id: String,
    pub collection_id: String,
    pub asset_id: String,
    pub segment_id: Option<String>,
    pub position: i64,
    pub rating: Option<i32>,
    pub note: Option<String>,
    pub recommended_in_ms: Option<i64>,
    pub recommended_out_ms: Option<i64>,
    pub created_at: i64,
    pub updated_at: i64,
    pub asset: Asset,
    pub segment: Option<Segment>,
}

/// A library moved to a new root, with the rescan queued for it.
#[derive(Debug, Clone)]
pub struct ReconnectLibraryResult {
    pub library: Library,
    pub job: Job,
    pub rebased_assets: usize,
    pub offline_assets: usize,
}

/// Identifiers of the isolated fixture seeded for desktop automation.
#[derive(Debug, Clone)]
pub struct SegmentSelectFixture {
    pub library_id: String,
    pub collection_id: String,
    pub asset_id: String,
    pub segment_id: String,
}

/// Counts of one library scan.
#[derive(Debug, Clone, Copy, PartialEq, Eq, Structural)]
pub struct ScanSummary {
    pub changed: usize,
    pub unchanged: usize,
    pub removed: usize,
    pub errors: usize,
}

impl ScanSummary {
    pub fn new() -> (r: ScanSummary)
        ensures
            r.changed == 0 && r.unchanged == 0 && r.removed == 0 && r.errors == 0,
    {
        ScanSummary { changed: 0, unchanged: 0, removed: 0, errors: 0 }
    }
}

} // verus!
