//! Video shots and their derivatives: cutting a video into shots at scene
//! boundaries, choosing the representative frame and the preview span of a
//! shot, the FFmpeg argument lists that produce them, and the conservative
//! subtitle and HUD hints computed from a representative frame.

use vstd::prelude::*;

use crate::models::Segment;
use crate::text::{decimal, push_char, push_decimal, push_str, push_zero_padded, zero_padded};

verus! {

// ---------------------------------------------------------------------------
// Representative frame and preview span
// ---------------------------------------------------------------------------

/// Preview clips are at most this long.
pub const MAX_PREVIEW_DURATION_MS: i64 = 6000;

/// Shots closer than this to the previous cut are merged into it.
pub const MIN_SHOT_DURATION_MS: i64 = 400;

/// At most this many shots of a video get derivatives.
pub const MAX_DERIVATIVE_SEGMENTS: usize = 120;

/// The frame shown for a shot: half-way in, but never more than a second
/// after the start; saturates at the largest time.
pub open spec fn representative_time(start: int, duration: int) -> int {
    let d = if duration < 1 { 1 } else { duration };
    let offset = if d / 2 < 1000 { d / 2 } else { 1000 };
    if start + offset > i64::MAX { i64::MAX as int } else { start + offset }
}

/// The time of the representative frame of a shot.
pub fn representative_timestamp_ms(start_ms: i64, duration_ms: i64) -> (r: i64)
    ensures
        r == representative_time(start_ms as int, duration_ms as int),
{
    let d: i64 = if duration_ms < 1 { 1 } else { duration_ms };
    let offset: i64 = if d / 2 < 1000 { d / 2 } else { 1000 };
    if start_ms > i64::MAX - offset { i64::MAX } else { start_ms + offset }
}

/// The length of a shot's preview: at least 250 ms, at most six seconds.
pub fn preview_duration_ms(duration_ms: i64) -> (r: i64)
    ensures
        r == if duration_ms < 250 { 250 } else if duration_ms > MAX_PREVIEW_DURATION_MS {
            MAX_PREVIEW_DURATION_MS
        } else {
            duration_ms
        },
{
    if duration_ms < 250 {
        250
    } else if duration_ms > MAX_PREVIEW_DURATION_MS {
        MAX_PREVIEW_DURATION_MS
    } else {
        duration_ms
    }
}

/// Seconds with three decimals, as FFmpeg's `-ss`/`-t` take them; negative
/// times count as zero.
pub open spec fn seconds_text(ms: int) -> Seq<char> {
    let m: nat = if ms < 0 { 0 } else { ms as nat };
    decimal(m / 1000) + seq!['.'] + zero_padded(m % 1000, 3)
}

/// Formats milliseconds as seconds with three decimals.
pub fn format_seconds(milliseconds: i64) -> (r: String)
    ensures
        r@ == seconds_text(milliseconds as int),
{
    let m: u64 = if milliseconds < 0 { 0 } else { milliseconds as u64 };
    let mut out = String::new();
    push_decimal(&mut out, m / 1000);
    push_char(&mut out, '.');
    push_zero_padded(&mut out, m % 1000, 3);
    out
}

fn owned(s: &str) -> (r: String)
    ensures
        r@ == s@,
{
    s.to_string()
}

/// FFmpeg arguments (after the input) that write the representative JPEG
/// of a shot at `timestamp_ms` to `output`. Each value is its own argument,
/// so no shell ever parses a path.
pub fn keyframe_args(timestamp_ms: i64, output: &str) -> (r: Vec<String>)
    ensures
        r@.len() == 9,
        r@[0]@ == "-ss"@,
        r@[1]@ == seconds_text(timestamp_ms as int),
        r@[2]@ == "-frames:v"@,
        r@[3]@ == "1"@,
        r@[4]@ == "-vf"@,
        r@[5]@ == "scale='min(640,iw)':-2"@,
        r@[6]@ == "-q:v"@,
        r@[7]@ == "3"@,
        r@[8]@ == output@,
{
    let mut v: Vec<String> = Vec::new();
    v.push(owned("-ss"));
    v.push(format_seconds(timestamp_ms));
    v.push(owned("-frames:v"));
    v.push(owned("1"));
    v.push(owned("-vf"));
    v.push(owned("scale='min(640,iw)':-2"));
    v.push(owned("-q:v"));
    v.push(owned("3"));
    v.push(owned(output));
    v
}

/// FFmpeg arguments that write a small silent H.264 preview of a shot
/// starting at `start_ms` to `output`.
pub fn preview_args(start_ms: i64, duration_ms: i64, output: &str) -> (r: Vec<String>)
    ensures
        r@.len() == 16,
        r@[0]@ == "-ss"@,
        r@[1]@ == seconds_text(start_ms as int),
        r@[2]@ == "-t"@,
        r@[3]@ == seconds_text(
            if duration_ms < 250 { 250 } else if duration_ms > MAX_PREVIEW_DURATION_MS {
                MAX_PREVIEW_DURATION_MS as int
            } else {
                duration_ms as int
            },
        ),
        r@[4]@ == "-an"@,
        r@[5]@ == "-vf"@,
        r@[6]@ == "scale='min(640,iw)':-2,fps=15"@,
        r@[7]@ == "-c:v"@,
        r@[8]@ == "libx264"@,
        r@[9]@ == "-preset"@,
        r@[10]@ == "veryfast"@,
        r@[11]@ == "-crf"@,
        r@[12]@ == "32"@,
        r@[13]@ == "-movflags"@,
        r@[14]@ == "+faststart"@,
        r@[15]@ == output@,
{
    let mut v: Vec<String> = Vec::new();
    v.push(owned("-ss"));
    v.push(format_seconds(start_ms));
    v.push(owned("-t"));
    v.push(format_seconds(preview_duration_ms(duration_ms)));
    v.push(owned("-an"));
    v.push(owned("-vf"));
    v.push(owned("scale='min(640,iw)':-2,fps=15"));
    v.push(owned("-c:v"));
    v.push(owned("libx264"));
    v.push(owned("-preset"));
    v.push(owned("veryfast"));
    v.push(owned("-crf"));
    v.push(owned("32"));
    v.push(owned("-movflags"));
    v.push(owned("+faststart"));
    v.push(owned(output));
    v
}

// ---------------------------------------------------------------------------
// Shots
// ---------------------------------------------------------------------------

/// Where the shots of a video of `duration` milliseconds start, given the
/// scene boundaries in detection order: the first shot starts at zero, and a
/// boundary starts a new shot when it lies inside the video and more than
/// `MIN_SHOT_DURATION_MS` after the last accepted start.
pub open spec fn shot_starts(bs: Seq<i64>, duration: int) -> Seq<int>
    decreases bs.len(),
{
    if bs.len() == 0 {
        seq![0]
    } else {
        let p = shot_starts(bs.drop_last(), duration);
        let b = bs.last() as int;
        if b > p.last() + MIN_SHOT_DURATION_MS && b < duration {
            p.push(b)
        } else {
            p
        }
    }
}

/// The length used for a video: at least one millisecond.
pub open spec fn shot_duration(duration_ms: int) -> int {
    if duration_ms < 1 { 1 } else { duration_ms }
}

/// Shot `k` ends where the next one starts, the last one at the end of the video.
pub open spec fn shot_end(starts: Seq<int>, k: int, duration: int) -> int {
    if k + 1 < starts.len() { starts[k + 1] } else { duration }
}

/// Shot starts begin at zero, increase by more than the minimum shot
/// length, and stay inside the video.
pub open spec fn well_spaced(starts: Seq<int>, duration: int) -> bool {
    &&& starts.len() >= 1
    &&& starts[0] == 0
    &&& forall|k: int| 0 <= k < starts.len() ==> 0 <= #[trigger] starts[k] < duration
    &&& forall|k: int| 0 <= k < starts.len() - 1 ==> #[trigger] starts[k] + MIN_SHOT_DURATION_MS < starts[k + 1]
}

pub proof fn lemma_shot_starts_well_spaced(bs: Seq<i64>, duration: int)
    requires
        duration >= 1,
    ensures
        well_spaced(shot_starts(bs, duration), duration),
        shot_starts(bs, duration).len() <= bs.len() + 1,
    decreases bs.len(),
{
    if bs.len() > 0 {
        lemma_shot_starts_well_spaced(bs.drop_last(), duration);
        let p = shot_starts(bs.drop_last(), duration);
        let b = bs.last() as int;
        if b > p.last() + MIN_SHOT_DURATION_MS && b < duration {
            let q = p.push(b);
            assert forall|k: int| 0 <= k < q.len() - 1 implies #[trigger] q[k] + MIN_SHOT_DURATION_MS < q[k + 1] by {
                if k < p.len() - 1 {
                    assert(q[k] == p[k] && q[k + 1] == p[k + 1]);
                } else {
                    assert(q[k] == p.last());
                }
            }
            assert forall|k: int| 0 <= k < q.len() implies 0 <= #[trigger] q[k] < duration by {
                if k < p.len() {
                    assert(q[k] == p[k]);
                }
            }
        }
    }
}

proof fn lemma_shot_step(bs: Seq<i64>, i: int, d: int)
    requires
        0 <= i < bs.len(),
        d >= 1,
    ensures
        shot_starts(bs.take(i + 1), d) == ({
            let p = shot_starts(bs.take(i), d);
            let b = bs[i] as int;
            if b > p.last() + MIN_SHOT_DURATION_MS && b < d { p.push(b) } else { p }
        }),
        well_spaced(shot_starts(bs.take(i + 1), d), d),
{
    assert(bs.take(i + 1).drop_last() =~= bs.take(i));
    lemma_shot_starts_well_spaced(bs.take(i + 1), d);
}

/// The `[start, end)` spans of the shots of a video.
#[verifier::rlimit(30)]
pub fn shot_spans(duration_ms: i64, boundaries: &Vec<i64>) -> (r: Vec<(i64, i64)>)
    ensures
        r@.len() == shot_starts(boundaries@, shot_duration(duration_ms as int)).len(),
        forall|k: int| 0 <= k < r@.len() ==> {
            let starts = shot_starts(boundaries@, shot_duration(duration_ms as int));
            &&& (#[trigger] r@[k]).0 == starts[k]
            &&& r@[k].1 == shot_end(starts, k, shot_duration(duration_ms as int))
        },
{
    let duration: i64 = if duration_ms < 1 { 1 } else { duration_ms };
    let ghost d = duration as int;
    let mut starts: Vec<i64> = Vec::new();
    starts.push(0);
    let n = boundaries.len();
    assert(boundaries@.take(0) =~= Seq::<i64>::empty());
    for i in 0..n
        invariant
            n == boundaries@.len(),
            d == duration as int,
            d >= 1,
            starts@.len() >= 1,
            starts@.len() == shot_starts(boundaries@.take(i as int), d).len(),
            forall|k: int| 0 <= k < starts@.len() ==> #[trigger] starts@[k] == shot_starts(boundaries@.take(i as int), d)[k],
            well_spaced(shot_starts(boundaries@.take(i as int), d), d),
    {
        proof {
            lemma_shot_step(boundaries@, i as int, d);
        }
        let b = boundaries[i];
        let last = starts[starts.len() - 1];
        if b > last && b - last > MIN_SHOT_DURATION_MS && b < duration {
            starts.push(b);
        }
    }
    assert(boundaries@.take(n as int) =~= boundaries@);
    let ghost st = shot_starts(boundaries@, d);
    let m = starts.len();
    let mut spans: Vec<(i64, i64)> = Vec::new();
    for k in 0..m
        invariant
            m == starts@.len() == st.len(),
            forall|q: int| 0 <= q < m ==> #[trigger] starts@[q] == st[q],
            well_spaced(st, d),
            d == duration as int,
            spans@.len() == k,
            forall|q: int| 0 <= q < k ==> (#[trigger] spans@[q]).0 == st[q] && spans@[q].1 == shot_end(st, q, d),
    {
        let end: i64 = if k + 1 < m { starts[k + 1] } else { duration };
        spans.push((starts[k], end));
    }
    spans
}

/// The segment kind: `whole_asset` when no boundary was detected, else `shot`.
pub open spec fn segment_kind(no_boundaries: bool) -> Seq<char> {
    if no_boundaries { "whole_asset"@ } else { "shot"@ }
}

/// The shot segments of a video, each with a fresh id, created at `now`.
pub fn build_segments(asset_id: &str, duration_ms: i64, boundaries: &Vec<i64>, now: i64) -> (r: Vec<Segment>)
    ensures
        r@.len() == shot_starts(boundaries@, shot_duration(duration_ms as int)).len(),
        forall|k: int| 0 <= k < r@.len() ==> {
            let starts = shot_starts(boundaries@, shot_duration(duration_ms as int));
            let seg = #[trigger] r@[k];
            &&& seg.id@.len() == 36
            &&& seg.asset_id@ == asset_id@
            &&& seg.segment_type@ == segment_kind(boundaries@.len() == 0)
            &&& seg.segment_index == k as i32
            &&& seg.start_ms == starts[k]
            &&& seg.end_ms == shot_end(starts, k, shot_duration(duration_ms as int))
            &&& seg.duration_ms == seg.end_ms - seg.start_ms
            &&& seg.representative_frame_path is None && seg.thumbnail_path is None
            &&& seg.thumbnail_data_url is None && seg.preview_path is None
            &&& seg.subtitle_present is None && seg.game_ui is None && seg.embedding_ref is None
            &&& seg.created_at == now && seg.updated_at == now
        },
{
    let spans = shot_spans(duration_ms, boundaries);
    let ghost d = shot_duration(duration_ms as int);
    let ghost st = shot_starts(boundaries@, d);
    proof {
        lemma_shot_starts_well_spaced(boundaries@, d);
    }
    let kind = if boundaries.len() == 0 { "whole_asset" } else { "shot" };
    let m = spans.len();
    let mut out: Vec<Segment> = Vec::new();
    for k in 0..m
        invariant
            m == spans@.len() == st.len(),
            st == shot_starts(boundaries@, d),
            d == shot_duration(duration_ms as int),
            well_spaced(st, d),
            kind@ == segment_kind(boundaries@.len() == 0),
            forall|q: int| 0 <= q < m ==> (#[trigger] spans@[q]).0 == st[q] && spans@[q].1 == shot_end(st, q, d),
            out@.len() == k,
            forall|q: int| 0 <= q < k ==> {
                let seg = #[trigger] out@[q];
                &&& seg.id@.len() == 36
                &&& seg.asset_id@ == asset_id@
                &&& seg.segment_type@ == segment_kind(boundaries@.len() == 0)
                &&& seg.segment_index == q as i32
                &&& seg.start_ms == st[q]
                &&& seg.end_ms == shot_end(st, q, d)
                &&& seg.duration_ms == seg.end_ms - seg.start_ms
                &&& seg.representative_frame_path is None && seg.thumbnail_path is None
                &&& seg.thumbnail_data_url is None && seg.preview_path is None
                &&& seg.subtitle_present is None && seg.game_ui is None && seg.embedding_ref is None
                &&& seg.created_at == now && seg.updated_at == now
            },
    {
        let (start, end) = spans[k];
        proof {
            if k + 1 < m {
                assert(st[k as int] + MIN_SHOT_DURATION_MS < st[k + 1]);
            }
            assert(0 <= st[k as int] < d);
        }
        out.push(Segment {
            id: crate::models::new_random_id(),
            asset_id: owned(asset_id),
            segment_type: owned(kind),
            segment_index: k as i32,
            start_ms: start,
            end_ms: end,
            duration_ms: end - start,
            representative_frame_path: None,
            thumbnail_path: None,
            thumbnail_data_url: None,
            preview_path: None,
            subtitle_present: None,
            game_ui: None,
            embedding_ref: None,
            created_at: now,
            updated_at: now,
        });
    }
    out
}

/// The shots of a video cover it without gaps or overlaps: the first starts
/// at zero, each ends where the next starts, the last ends at the end of the
/// video, and each but the last is longer than the minimum shot length.
pub proof fn law_shots_tile_the_video(boundaries: Seq<i64>, duration_ms: int)
    ensures
        ({
            let d = shot_duration(duration_ms);
            let st = shot_starts(boundaries, d);
            &&& st.len() >= 1
            &&& st[0] == 0
            &&& shot_end(st, st.len() - 1, d) == d
            &&& forall|k: int| 0 <= k < st.len() - 1 ==> #[trigger] shot_end(st, k, d) == st[k + 1]
            &&& forall|k: int| 0 <= k < st.len() ==> st[k] < #[trigger] shot_end(st, k, d)
            &&& forall|k: int| 0 <= k < st.len() - 1 ==> #[trigger] st[k] + MIN_SHOT_DURATION_MS < st[k + 1]
            &&& st.len() <= boundaries.len() + 1
        }),
{
    let d = shot_duration(duration_ms);
    lemma_shot_starts_well_spaced(boundaries, d);
    let st = shot_starts(boundaries, d);
    assert forall|k: int| 0 <= k < st.len() implies st[k] < #[trigger] shot_end(st, k, d) by {
        if k + 1 < st.len() {
            assert(st[k] + MIN_SHOT_DURATION_MS < st[k + 1]);
        }
    }
}

// ---------------------------------------------------------------------------
// Frame hints
// ---------------------------------------------------------------------------

/// The grey level at column `x`, row `y` of a row-major frame `w` pixels wide.
pub open spec fn px(p: Seq<u8>, w: int, x: int, y: int) -> u8 {
    p[y * w + x]
}

/// A grey level counts as bright from 220 and as dark up to 50.
pub open spec fn tone(v: u8, bright: bool) -> bool {
    if bright { v >= 220 } else { v <= 50 }
}

/// Pixels of row `y` in columns `x0..x1` of the given tone, in a row-major
/// frame `w` pixels wide.
pub open spec fn row_tone_count(p: Seq<u8>, w: int, y: int, x0: int, x1: int, bright: bool) -> int
    decreases x1 - x0,
{
    if x1 <= x0 {
        0
    } else {
        row_tone_count(p, w, y, x0, x1 - 1, bright) + if tone(px(p, w, x1 - 1, y), bright) { 1int } else { 0int }
    }
}

/// Pixels of the given tone in the rectangle `x0..x1` by `y0..y1`.
pub open spec fn tone_count(p: Seq<u8>, w: int, x0: int, x1: int, y0: int, y1: int, bright: bool) -> int
    decreases y1 - y0,
{
    if y1 <= y0 {
        0
    } else {
        tone_count(p, w, x0, x1, y0, y1 - 1, bright) + row_tone_count(p, w, y1 - 1, x0, x1, bright)
    }
}

/// Whether column `x` has a bright pixel in rows `y0..y1`.
pub open spec fn column_lit(p: Seq<u8>, w: int, x: int, y0: int, y1: int) -> bool {
    exists|y: int| y0 <= y < y1 && #[trigger] px(p, w, x, y) >= 220
}

/// Whether row `y` has a bright pixel in columns `x0..x1`.
pub open spec fn row_lit(p: Seq<u8>, w: int, y: int, x0: int, x1: int) -> bool {
    exists|x: int| x0 <= x < x1 && #[trigger] px(p, w, x, y) >= 220
}

/// Columns among `x0..x1` with a bright pixel in rows `y0..y1`.
pub open spec fn lit_columns(p: Seq<u8>, w: int, x0: int, x1: int, y0: int, y1: int) -> int
    decreases x1 - x0,
{
    if x1 <= x0 {
        0
    } else {
        lit_columns(p, w, x0, x1 - 1, y0, y1) + if column_lit(p, w, x1 - 1, y0, y1) { 1int } else { 0int }
    }
}

/// Rows among `y0..y1` with a bright pixel in columns `x0..x1`.
pub open spec fn lit_rows(p: Seq<u8>, w: int, x0: int, x1: int, y0: int, y1: int) -> int
    decreases y1 - y0,
{
    if y1 <= y0 {
        0
    } else {
        lit_rows(p, w, x0, x1, y0, y1 - 1) + if row_lit(p, w, y1 - 1, x0, x1) { 1int } else { 0int }
    }
}

/// Tone counts and lit columns and rows of a rectangle of a frame.
pub struct RegionStats {
    pub bright: usize,
    pub dark: usize,
    pub lit_columns: usize,
    pub lit_rows: usize,
}

pub proof fn lemma_count_bounds(p: Seq<u8>, w: int, x0: int, x1: int, y0: int, y1: int, bright: bool)
    requires
        x0 <= x1,
        y0 <= y1,
    ensures
        0 <= tone_count(p, w, x0, x1, y0, y1, bright) <= (x1 - x0) * (y1 - y0),
        0 <= lit_columns(p, w, x0, x1, y0, y1) <= x1 - x0,
        0 <= lit_rows(p, w, x0, x1, y0, y1) <= y1 - y0,
    decreases (x1 - x0) + (y1 - y0),
{
    if y1 > y0 {
        lemma_count_bounds(p, w, x0, x1, y0, y1 - 1, bright);
        lemma_row_count_bound(p, w, y1 - 1, x0, x1, bright);
        assert((x1 - x0) * (y1 - y0) == (x1 - x0) * (y1 - 1 - y0) + (x1 - x0)) by (nonlinear_arith);
    }
    if x1 > x0 {
        lemma_count_bounds(p, w, x0, x1 - 1, y0, y1, bright);
    }
}

pub proof fn lemma_row_count_bound(p: Seq<u8>, w: int, y: int, x0: int, x1: int, bright: bool)
    requires
        x0 <= x1,
    ensures
        0 <= row_tone_count(p, w, y, x0, x1, bright) <= x1 - x0,
    decreases x1 - x0,
{
    if x1 > x0 {
        lemma_row_count_bound(p, w, y, x0, x1 - 1, bright);
    }
}

/// Counts bright and dark pixels, lit columns and lit rows of the rectangle
/// `x0..x1` by `y0..y1` of a row-major frame `width` pixels wide.
pub fn region_stats(pixels: &Vec<u8>, width: usize, x0: usize, x1: usize, y0: usize, y1: usize) -> (r: RegionStats)
    requires
        x0 <= x1 <= width,
        y0 <= y1,
        y1 * width <= pixels@.len(),
    ensures
        r.bright == tone_count(pixels@, width as int, x0 as int, x1 as int, y0 as int, y1 as int, true),
        r.dark == tone_count(pixels@, width as int, x0 as int, x1 as int, y0 as int, y1 as int, false),
        r.lit_columns == lit_columns(pixels@, width as int, x0 as int, x1 as int, y0 as int, y1 as int),
        r.lit_rows == lit_rows(pixels@, width as int, x0 as int, x1 as int, y0 as int, y1 as int),
{
    let ghost p = pixels@;
    let ghost w = width as int;
    let plen = pixels.len();
    let mut bright: usize = 0;
    let mut dark: usize = 0;
    let mut columns: Vec<bool> = Vec::new();
    let mut c: usize = x0;
    while c < x1
        invariant
            x0 <= c <= x1,
            columns@.len() == c - x0,
            forall|q: int| 0 <= q < columns@.len() ==> !(#[trigger] columns@[q]),
        decreases x1 - c,
    {
        columns.push(false);
        c = c + 1;
    }
    let mut rows_lit: usize = 0;
    let mut y: usize = y0;
    while y < y1
        invariant
            x0 <= x1 <= width,
            y0 <= y <= y1,
            y1 * width <= p.len(),
            plen == p.len(),
            p == pixels@,
            w == width as int,
            columns@.len() == x1 - x0,
            bright == tone_count(p, w, x0 as int, x1 as int, y0 as int, y as int, true),
            dark == tone_count(p, w, x0 as int, x1 as int, y0 as int, y as int, false),
            rows_lit == lit_rows(p, w, x0 as int, x1 as int, y0 as int, y as int),
            forall|q: int| 0 <= q < x1 - x0 ==> #[trigger] columns@[q] == column_lit(p, w, x0 + q, y0 as int, y as int),
        decreases y1 - y,
    {
        proof {
            lemma_count_bounds(p, w, x0 as int, x1 as int, y0 as int, y as int, true);
            lemma_count_bounds(p, w, x0 as int, x1 as int, y0 as int, y as int, false);
            assert((y + 1) * width <= y1 * width) by (nonlinear_arith)
                requires y + 1 <= y1;
        }
        let mut lit = false;
        let mut x: usize = x0;
        let ghost bright0 = bright as int;
        let ghost dark0 = dark as int;
        while x < x1
            invariant
                x0 <= x <= x1 <= width,
                y0 <= y < y1,
                (y + 1) * width <= p.len(),
                p == pixels@,
                w == width as int,
                columns@.len() == x1 - x0,
                bright0 == tone_count(p, w, x0 as int, x1 as int, y0 as int, y as int, true),
                dark0 == tone_count(p, w, x0 as int, x1 as int, y0 as int, y as int, false),
                bright0 <= (x1 - x0) * (y - y0),
                dark0 <= (x1 - x0) * (y - y0),
                y1 * width <= p.len(),
                plen == p.len(),
                bright == bright0 + row_tone_count(p, w, y as int, x0 as int, x as int, true),
                dark == dark0 + row_tone_count(p, w, y as int, x0 as int, x as int, false),
                lit == (exists|xx: int| x0 <= xx < x && #[trigger] px(p, w, xx, y as int) >= 220),
                forall|q: int| 0 <= q < x - x0 ==> #[trigger] columns@[q] == column_lit(p, w, x0 + q, y0 as int, y + 1),
                forall|q: int| x - x0 <= q < x1 - x0 ==> #[trigger] columns@[q] == column_lit(p, w, x0 + q, y0 as int, y as int),
            decreases x1 - x,
        {
            proof {
                lemma_row_count_bound(p, w, y as int, x0 as int, x as int, true);
                lemma_row_count_bound(p, w, y as int, x0 as int, x as int, false);
                assert(y * width + x < (y + 1) * width) by (nonlinear_arith)
                    requires x < width;
                assert((x1 - x0) * (y - y0) + (x1 - x0) <= (x1 - x0) * (y1 - y0)) by (nonlinear_arith)
                    requires y + 1 <= y1, x0 <= x1;
                assert((x1 - x0) * (y1 - y0) <= y1 * width) by (nonlinear_arith)
                    requires x1 - x0 <= width, y1 - y0 <= y1, x0 <= x1, y0 <= y1;
            }
            let v = pixels[y * width + x];
            let q = x - x0;
            if v >= 220 {
                bright = bright + 1;
                columns.set(q, true);
                lit = true;
            }
            if v <= 50 {
                dark = dark + 1;
            }
            proof {
                let cols = columns@;
                assert(px(p, w, x as int, y as int) == v);
                assert forall|k: int| 0 <= k < x + 1 - x0 implies #[trigger] cols[k] == column_lit(p, w, x0 + k, y0 as int, y + 1) by {
                    if k == q {
                        if v >= 220 {
                            assert(px(p, w, x0 + k, y as int) >= 220);
                        } else {
                            if column_lit(p, w, x0 + k, y0 as int, y + 1) {
                                let yy = choose|yy: int| y0 <= yy < y + 1 && #[trigger] px(p, w, x0 + k, yy) >= 220;
                                assert(yy != y);
                            }
                        }
                    } else {
                        if column_lit(p, w, x0 + k, y0 as int, y + 1) && !column_lit(p, w, x0 + k, y0 as int, y as int) {
                            let yy = choose|yy: int| y0 <= yy < y + 1 && #[trigger] px(p, w, x0 + k, yy) >= 220;
                            assert(yy == y);
                        }
                    }
                }
                if v >= 220 {
                    assert(px(p, w, x as int, y as int) >= 220);
                }
            }
            x = x + 1;
        }
        if lit {
            rows_lit = rows_lit + 1;
        }
        proof {
            assert(row_lit(p, w, y as int, x0 as int, x1 as int) == lit);
        }
        y = y + 1;
    }
    let mut lit_cols: usize = 0;
    let mut k: usize = 0;
    while k < x1 - x0
        invariant
            k <= x1 - x0,
            y0 <= y1,
            columns@.len() == x1 - x0,
            forall|q: int| 0 <= q < x1 - x0 ==> #[trigger] columns@[q] == column_lit(p, w, x0 + q, y0 as int, y1 as int),
            lit_cols == lit_columns(p, w, x0 as int, x0 + k, y0 as int, y1 as int),
        decreases x1 - x0 - k,
    {
        proof {
            lemma_count_bounds(p, w, x0 as int, x0 + k, y0 as int, y1 as int, true);
        }
        if columns[k] {
            lit_cols = lit_cols + 1;
        }
        k = k + 1;
    }
    RegionStats { bright, dark, lit_columns: lit_cols, lit_rows: rows_lit }
}

/// The lower-third subtitle hint: in the bottom third of a frame at least
/// 32x24, between 0.3% and 16% of the pixels are bright, at least 12% are
/// dark, and the bright pixels reach at least 18% of the columns. The
/// ratios are compared exactly.
pub open spec fn subtitle_hint(p: Seq<u8>, w: int, h: int) -> bool {
    if w < 32 || h < 24 {
        false
    } else {
        let y0 = h * 2 / 3;
        let area = w * (h - y0);
        let bright = tone_count(p, w, 0, w, y0, h, true);
        let dark = tone_count(p, w, 0, w, y0, h, false);
        let cols = lit_columns(p, w, 0, w, y0, h);
        &&& 3 * area <= 1000 * bright
        &&& 1000 * bright <= 160 * area
        &&& 100 * dark >= 12 * area
        &&& 100 * cols >= 18 * w
    }
}

/// One lower corner looks like HUD: between 1% and 28% of its pixels are
/// bright, at least 12% are dark, and the bright pixels reach between 8%
/// and 75% of its columns and of its rows.
pub open spec fn hud_corner_hint(p: Seq<u8>, w: int, x0: int, x1: int, y0: int, y1: int) -> bool {
    let area = (x1 - x0) * (y1 - y0);
    let bright = tone_count(p, w, x0, x1, y0, y1, true);
    let dark = tone_count(p, w, x0, x1, y0, y1, false);
    let cols = lit_columns(p, w, x0, x1, y0, y1);
    let rows = lit_rows(p, w, x0, x1, y0, y1);
    &&& 100 * bright >= area
    &&& 100 * bright <= 28 * area
    &&& 100 * dark >= 12 * area
    &&& 100 * cols >= 8 * (x1 - x0)
    &&& 100 * cols <= 75 * (x1 - x0)
    &&& 100 * rows >= 8 * (y1 - y0)
    &&& 100 * rows <= 75 * (y1 - y0)
}

/// The width of a HUD corner: 30% of the frame, at least 12 pixels.
pub open spec fn hud_corner_width(w: int) -> int {
    if w * 3 / 10 < 12 { 12 } else { w * 3 / 10 }
}

/// The HUD hint: a frame at least 48x32 whose two lower corners (the lower
/// two fifths, 30% of the width each) both look like HUD.
pub open spec fn game_ui_hint(p: Seq<u8>, w: int, h: int) -> bool {
    if w < 48 || h < 32 {
        false
    } else {
        let cw = hud_corner_width(w);
        let y0 = h * 3 / 5;
        hud_corner_hint(p, w, 0, cw, y0, h) && hud_corner_hint(p, w, w - cw, w, y0, h)
    }
}

/// Whether a grey frame probably shows subtitles in its lower third. This
/// is a conservative local heuristic, not OCR.
pub fn likely_subtitle(pixels: &Vec<u8>, width: usize, height: usize) -> (r: bool)
    requires
        pixels@.len() == width * height,
    ensures
        r == subtitle_hint(pixels@, width as int, height as int),
{
    if width < 32 || height < 24 {
        return false;
    }
    let plen = pixels.len();
    let y0 = ((height as u128) * 2 / 3) as usize;
    proof {
        assert(height * width <= pixels@.len()) by (nonlinear_arith)
            requires pixels@.len() == width * height;
    }
    let stats = region_stats(pixels, width, 0, width, y0, height);
    proof {
        lemma_count_bounds(pixels@, width as int, 0, width as int, y0 as int, height as int, true);
        lemma_count_bounds(pixels@, width as int, 0, width as int, y0 as int, height as int, false);
        assert(width * (height - y0) <= width * height) by (nonlinear_arith)
            requires y0 <= height;
        assert((width - 0) * (height - y0) == width * (height - y0));
    }
    let area = (width as u128) * ((height - y0) as u128);
    let bright = stats.bright as u128;
    let dark = stats.dark as u128;
    let cols = stats.lit_columns as u128;
    3 * area <= 1000 * bright && 1000 * bright <= 160 * area && 100 * dark >= 12 * area
        && 100 * cols >= 18 * (width as u128)
}

/// Whether one lower corner of a frame looks like part of a game HUD.
pub fn hud_corner_active(pixels: &Vec<u8>, width: usize, x0: usize, x1: usize, y0: usize, y1: usize) -> (r: bool)
    requires
        x0 < x1 <= width,
        y0 < y1,
        y1 * width <= pixels@.len(),
    ensures
        r == hud_corner_hint(pixels@, width as int, x0 as int, x1 as int, y0 as int, y1 as int),
{
    let stats = region_stats(pixels, width, x0, x1, y0, y1);
    proof {
        lemma_count_bounds(pixels@, width as int, x0 as int, x1 as int, y0 as int, y1 as int, true);
        lemma_count_bounds(pixels@, width as int, x0 as int, x1 as int, y0 as int, y1 as int, false);
    }
    let plen = pixels.len();
    proof {
        assert((x1 - x0) * (y1 - y0) <= y1 * width) by (nonlinear_arith)
            requires x1 - x0 <= width, y1 - y0 <= y1, x0 <= x1, y0 <= y1;
    }
    let cw = (x1 - x0) as u128;
    let rh = (y1 - y0) as u128;
    let area = cw * rh;
    let bright = stats.bright as u128;
    let dark = stats.dark as u128;
    let cols = stats.lit_columns as u128;
    let rows = stats.lit_rows as u128;
    100 * bright >= area && 100 * bright <= 28 * area && 100 * dark >= 12 * area && 100 * cols >= 8 * cw
        && 100 * cols <= 75 * cw && 100 * rows >= 8 * rh && 100 * rows <= 75 * rh
}

/// Whether a grey frame probably shows a game HUD: compact high-contrast
/// clusters in both lower corners. A narrow local hint, not a classifier.
pub fn likely_game_ui(pixels: &Vec<u8>, width: usize, height: usize) -> (r: bool)
    requires
        pixels@.len() == width * height,
    ensures
        r == game_ui_hint(pixels@, width as int, height as int),
{
    if width < 48 || height < 32 {
        return false;
    }
    let third: usize = ((width as u128) * 3 / 10) as usize;
    let cw: usize = if third < 12 { 12 } else { third };
    let y0 = ((height as u128) * 3 / 5) as usize;
    proof {
        assert(height * width <= pixels@.len()) by (nonlinear_arith)
            requires pixels@.len() == width * height;
    }
    hud_corner_active(pixels, width, 0, cw, y0, height) && hud_corner_active(pixels, width, width - cw, width, y0, height)
}

// ---------------------------------------------------------------------------
// Scene boundaries in FFmpeg's log
// ---------------------------------------------------------------------------

/// The first index at or after `i` where `needle` occurs in `hay`.
pub open spec fn find_from(hay: Seq<char>, needle: Seq<char>, i: int) -> Option<int>
    decreases hay.len() + 1 - i,
{
    if i < 0 || i + needle.len() > hay.len() {
        None
    } else if crate::text::occurs_at(hay, needle, i) {
        Some(i)
    } else {
        find_from(hay, needle, i + 1)
    }
}

/// Length of the run of non-whitespace characters that `t` starts with.
pub open spec fn word_len(t: Seq<char>) -> nat
    decreases t.len(),
{
    if t.len() == 0 || crate::text::unicode_whitespace(t[0]) {
        0
    } else {
        1 + word_len(t.drop_first())
    }
}

/// The first whitespace-separated word of `s`, as `split_whitespace` yields it.
pub open spec fn first_word(s: Seq<char>) -> Option<Seq<char>> {
    let t = crate::text::trim_start(s);
    if t.len() == 0 { None } else { Some(t.take(word_len(t) as int)) }
}

pub open spec fn pts_marker() -> Seq<char> {
    "pts_time:"@
}

/// The value after the first `pts_time:` of a log line, up to the next
/// marker: its first word, if any.
pub open spec fn pts_field(line: Seq<char>) -> Option<Seq<char>> {
    match find_from(line, pts_marker(), 0) {
        None => None,
        Some(i) => {
            let rest = line.skip(i + pts_marker().len());
            let piece = match find_from(rest, pts_marker(), 0) {
                Some(j) => rest.take(j),
                None => rest,
            };
            first_word(piece)
        },
    }
}

/// `s` cut at every newline (always at least one piece).
pub open spec fn newline_pieces(s: Seq<char>) -> Seq<Seq<char>>
    decreases s.len(),
{
    if s.len() == 0 {
        seq![Seq::empty()]
    } else {
        let p = newline_pieces(s.drop_last());
        if s.last() == '\n' {
            p.push(Seq::empty())
        } else {
            p.update(p.len() - 1, p.last().push(s.last()))
        }
    }
}

/// A line that ended with a newline loses one carriage return before it.
pub open spec fn without_cr(l: Seq<char>) -> Seq<char> {
    if l.len() > 0 && l.last() == '\r' { l.drop_last() } else { l }
}

/// The lines of `s` as `str::lines` gives them.
pub open spec fn lines_of(s: Seq<char>) -> Seq<Seq<char>> {
    let ps = newline_pieces(s);
    let done = ps.drop_last().map_values(|l: Seq<char>| without_cr(l));
    if ps.last().len() == 0 { done } else { done.push(ps.last()) }
}

/// The `pts_time` values of the lines that have one, in order.
pub open spec fn pts_fields(lines: Seq<Seq<char>>) -> Seq<Seq<char>>
    decreases lines.len(),
{
    if lines.len() == 0 {
        Seq::empty()
    } else {
        pts_fields(lines.drop_last()) + match pts_field(lines.last()) {
            Some(f) => seq![f],
            None => Seq::empty(),
        }
    }
}

pub proof fn lemma_newline_pieces_nonempty(s: Seq<char>)
    ensures
        newline_pieces(s).len() >= 1,
    decreases s.len(),
{
    if s.len() > 0 {
        lemma_newline_pieces_nonempty(s.drop_last());
    }
}

proof fn lemma_find_from_found(hay: Seq<char>, needle: Seq<char>, j: int)
    ensures
        find_from(hay, needle, j) matches Some(i) ==> i >= j && crate::text::occurs_at(hay, needle, i),
    decreases hay.len() + 1 - j,
{
    if !(j < 0 || j + needle.len() > hay.len()) && !crate::text::occurs_at(hay, needle, j) {
        lemma_find_from_found(hay, needle, j + 1);
    }
}

fn find_marker(hay: &Vec<char>, needle: &Vec<char>) -> (r: Option<usize>)
    ensures
        match r {
            Some(i) => find_from(hay@, needle@, 0) == Some(i as int),
            None => find_from(hay@, needle@, 0) is None,
        },
{
    let n = hay.len();
    let m = needle.len();
    if m > n {
        return None;
    }
    let mut i: usize = 0;
    while i <= n - m
        invariant
            n == hay@.len(),
            m == needle@.len(),
            m <= n,
            i <= n - m + 1,
            find_from(hay@, needle@, 0) == find_from(hay@, needle@, i as int),
        decreases n - m + 1 - i,
    {
        if crate::text::matches_at(hay, needle, i) {
            return Some(i);
        }
        if i == n - m {
            proof {
                assert(find_from(hay@, needle@, i + 1) is None);
            }
            return None;
        }
        i = i + 1;
    }
    None
}

fn skip_chars(v: &Vec<char>, from: usize) -> (r: Vec<char>)
    requires
        from <= v@.len(),
    ensures
        r@ == v@.skip(from as int),
{
    let mut out: Vec<char> = Vec::new();
    let n = v.len();
    let mut k = from;
    while k < n
        invariant
            from <= k <= n == v@.len(),
            out@ == v@.subrange(from as int, k as int),
        decreases n - k,
    {
        out.push(v[k]);
        assert(v@.subrange(from as int, k + 1) =~= v@.subrange(from as int, k as int).push(v@[k as int]));
        k = k + 1;
    }
    assert(v@.subrange(from as int, n as int) =~= v@.skip(from as int));
    out
}

fn take_chars(v: &Vec<char>, count: usize) -> (r: Vec<char>)
    requires
        count <= v@.len(),
    ensures
        r@ == v@.take(count as int),
{
    let mut out: Vec<char> = Vec::new();
    let mut k: usize = 0;
    while k < count
        invariant
            k <= count <= v@.len(),
            out@ == v@.take(k as int),
        decreases count - k,
    {
        out.push(v[k]);
        assert(v@.take(k + 1) =~= v@.take(k as int).push(v@[k as int]));
        k = k + 1;
    }
    out
}

proof fn lemma_word_len_bound(t: Seq<char>)
    ensures
        word_len(t) <= t.len(),
    decreases t.len(),
{
    if t.len() > 0 && !crate::text::unicode_whitespace(t[0]) {
        lemma_word_len_bound(t.drop_first());
    }
}

fn first_word_of(s: &Vec<char>) -> (r: Option<Vec<char>>)
    ensures
        match r {
            Some(w) => first_word(s@) == Some(w@),
            None => first_word(s@) is None,
        },
{
    let t = crate::text::trim_start_chars(s);
    if t.len() == 0 {
        return None;
    }
    let n = t.len();
    let mut k: usize = 0;
    assert(t@.skip(0) =~= t@);
    while k < n && !crate::text::is_whitespace(t[k])
        invariant
            k <= n == t@.len(),
            forall|q: int| 0 <= q < k ==> !crate::text::unicode_whitespace(#[trigger] t@[q]),
            word_len(t@) == k + word_len(t@.skip(k as int)),
        decreases n - k,
    {
        assert(t@.skip(k as int).drop_first() =~= t@.skip(k + 1));
        k = k + 1;
    }
    proof {
        assert(t@.skip(0) =~= t@);
        assert(word_len(t@.skip(k as int)) == 0);
    }
    Some(take_chars(&t, k))
}

fn pts_field_of(line: &Vec<char>, marker: &Vec<char>) -> (r: Option<Vec<char>>)
    requires
        marker@ == pts_marker(),
    ensures
        match r {
            Some(w) => pts_field(line@) == Some(w@),
            None => pts_field(line@) is None,
        },
{
    match find_marker(line, marker) {
        None => None,
        Some(i) => {
            proof {
                reveal_strlit("pts_time:");
                lemma_find_from_found(line@, marker@, 0);
                assert(crate::text::occurs_at(line@, marker@, i as int));
            }
            let line_len = line.len();
            let marker_len = marker.len();
            assert(i + marker_len <= line_len);
            let rest = skip_chars(line, i + marker_len);
            let found = find_marker(&rest, marker);
            proof {
                lemma_find_from_found(rest@, marker@, 0);
            }
            let piece = match found {
                Some(j) => {
                    assert(crate::text::occurs_at(rest@, marker@, j as int));
                    take_chars(&rest, j)
                },
                None => rest,
            };
            first_word_of(&piece)
        },
    }
}

/// The `pts_time` values that FFmpeg's `showinfo` filter logged, one per
/// line that carries one, in order, as text.
pub fn scene_timestamp_fields(output: &str) -> (r: Vec<String>)
    ensures
        r@.len() == pts_fields(lines_of(output@)).len(),
        forall|k: int| 0 <= k < r@.len() ==> (#[trigger] r@[k])@ == pts_fields(lines_of(output@))[k],
{
    let cs = crate::text::chars_of(output);
    let marker = crate::text::chars_of("pts_time:");
    let ghost s = output@;
    let n = cs.len();
    let mut out: Vec<String> = Vec::new();
    let mut cur: Vec<char> = Vec::new();
    let ghost mut done: Seq<Seq<char>> = Seq::empty();
    proof {
        assert(s.take(0) =~= Seq::<char>::empty());
    }
    for i in 0..n
        invariant
            n == cs@.len() == s.len(),
            cs@ == s,
            marker@ == pts_marker(),
            newline_pieces(s.take(i as int)).drop_last().map_values(|l: Seq<char>| without_cr(l)) == done,
            newline_pieces(s.take(i as int)).last() == cur@,
            out.deep_view() == pts_fields(done),
    {
        proof {
            lemma_newline_pieces_nonempty(s.take(i as int));
            assert(s.take(i + 1).drop_last() =~= s.take(i as int));
        }
        let c = cs[i];
        if c == '\n' {
            let line = if cur.len() > 0 && cur[cur.len() - 1] == '\r' {
                take_chars(&cur, cur.len() - 1)
            } else {
                take_chars(&cur, cur.len())
            };
            assert(line@ == without_cr(cur@)) by {
                assert(cur@.take(cur@.len() as int) =~= cur@);
                assert(cur@.take(cur@.len() - 1) =~= cur@.drop_last());
            }
            let ghost prev_done = done;
            proof {
                done = done.push(without_cr(cur@));
                let ps = newline_pieces(s.take(i as int));
                assert(newline_pieces(s.take(i + 1)) == ps.push(Seq::empty()));
                assert(ps.push(Seq::<char>::empty()).drop_last() =~= ps);
                assert(ps.map_values(|l: Seq<char>| without_cr(l)) =~= ps.drop_last().map_values(|l: Seq<char>| without_cr(l)).push(without_cr(ps.last())));
            }
            let ghost before = out.deep_view();
            match pts_field_of(&line, &marker) {
                Some(w) => {
                    out.push(crate::text::string_of(&w));
                },
                None => {},
            }
            proof {
                assert(done.drop_last() =~= prev_done);
                assert(out.deep_view() =~= pts_fields(done));
            }
            cur = Vec::new();
        } else {
            proof {
                let ps = newline_pieces(s.take(i as int));
                let qs = ps.update(ps.len() - 1, ps.last().push(c));
                assert(newline_pieces(s.take(i + 1)) == qs);
                assert(qs.drop_last() =~= ps.drop_last());
            }
            cur.push(c);
        }
    }
    proof {
        assert(s.take(n as int) =~= s);
    }
    let ghost ls = lines_of(s);
    if cur.len() > 0 {
        let ghost before = out.deep_view();
        match pts_field_of(&cur, &marker) {
            Some(w) => {
                out.push(crate::text::string_of(&w));
            },
            None => {},
        }
        proof {
            assert(ls == done.push(cur@));
            assert(ls.drop_last() =~= done);
            assert(out.deep_view() =~= pts_fields(ls));
        }
    } else {
        assert(ls == done);
    }
    proof {
        assert forall|k: int| 0 <= k < out@.len() implies (#[trigger] out@[k])@ == pts_fields(lines_of(output@))[k] by {
            assert(out.deep_view()[k] == out@[k]@);
        }
    }
    out
}

/// The last line of FFmpeg's error output, when it wrote any line.
pub fn last_line(text: &str) -> (r: Option<String>)
    ensures
        match r {
            Some(l) => lines_of(text@).len() > 0 && l@ == lines_of(text@).last(),
            None => lines_of(text@).len() == 0,
        },
{
    let cs = crate::text::chars_of(text);
    let ghost s = text@;
    let n = cs.len();
    let mut cur: Vec<char> = Vec::new();
    let mut last: Option<Vec<char>> = None;
    let ghost mut done: Seq<Seq<char>> = Seq::empty();
    proof {
        assert(s.take(0) =~= Seq::<char>::empty());
    }
    for i in 0..n
        invariant
            n == cs@.len() == s.len(),
            cs@ == s,
            newline_pieces(s.take(i as int)).drop_last().map_values(|l: Seq<char>| without_cr(l)) == done,
            newline_pieces(s.take(i as int)).last() == cur@,
            match last {
                Some(l) => done.len() > 0 && l@ == done.last(),
                None => done.len() == 0,
            },
    {
        proof {
            lemma_newline_pieces_nonempty(s.take(i as int));
            assert(s.take(i + 1).drop_last() =~= s.take(i as int));
        }
        let c = cs[i];
        if c == '\n' {
            let line = if cur.len() > 0 && cur[cur.len() - 1] == '\r' {
                take_chars(&cur, cur.len() - 1)
            } else {
                take_chars(&cur, cur.len())
            };
            assert(line@ == without_cr(cur@)) by {
                assert(cur@.take(cur@.len() as int) =~= cur@);
                assert(cur@.take(cur@.len() - 1) =~= cur@.drop_last());
            }
            proof {
                done = done.push(without_cr(cur@));
                let ps = newline_pieces(s.take(i as int));
                assert(newline_pieces(s.take(i + 1)) == ps.push(Seq::empty()));
                assert(ps.push(Seq::<char>::empty()).drop_last() =~= ps);
                assert(ps.map_values(|l: Seq<char>| without_cr(l)) =~= ps.drop_last().map_values(|l: Seq<char>| without_cr(l)).push(without_cr(ps.last())));
            }
            last = Some(line);
            cur = Vec::new();
        } else {
            proof {
                let ps = newline_pieces(s.take(i as int));
                let qs = ps.update(ps.len() - 1, ps.last().push(c));
                assert(newline_pieces(s.take(i + 1)) == qs);
                assert(qs.drop_last() =~= ps.drop_last());
            }
            cur.push(c);
        }
    }
    proof {
        assert(s.take(n as int) =~= s);
    }
    if cur.len() > 0 {
        return Some(crate::text::string_of(&cur));
    }
    match last {
        Some(l) => Some(crate::text::string_of(&l)),
        None => None,
    }
}

/// The error for a failed FFmpeg derivative run: its last line of error
/// output, or a generic note when it wrote none.
pub fn ffmpeg_failure(stderr: &str) -> (r: crate::errors::AppError)
    ensures
        r matches crate::errors::AppError::Other(m) && m@ == "FFmpeg 生成视频预览失败: "@ + if lines_of(stderr@).len() == 0 {
            "未知 FFmpeg 错误"@
        } else {
            lines_of(stderr@).last()
        },
{
    let mut m = String::new();
    push_str(&mut m, "FFmpeg 生成视频预览失败: ");
    match last_line(stderr) {
        Some(l) => push_str(&mut m, l.as_str()),
        None => push_str(&mut m, "未知 FFmpeg 错误"),
    }
    crate::errors::AppError::Other(m)
}

/// A shot after its derivatives were written: keyframe (also its
/// thumbnail), preview and the frame hints, updated at `now`. The
/// floating-point scores are kept by the caller.
pub fn with_derivatives(
    segment: &mut Segment,
    keyframe: String,
    preview: String,
    subtitle_present: bool,
    game_ui: bool,
    now: i64,
)
    ensures
        *final(segment) == (Segment {
            representative_frame_path: Some(keyframe),
            thumbnail_path: Some(keyframe),
            preview_path: Some(preview),
            subtitle_present: Some(subtitle_present),
            game_ui: Some(game_ui),
            updated_at: now,
            ..*old(segment)
        }),
{
    segment.representative_frame_path = Some(keyframe.clone());
    segment.thumbnail_path = Some(keyframe);
    segment.preview_path = Some(preview);
    segment.subtitle_present = Some(subtitle_present);
    segment.game_ui = Some(game_ui);
    segment.updated_at = now;
}

} // verus!
