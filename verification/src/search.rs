//! Search conditions: structured segment labels, the SQL that filters and
//! scores keyword candidates, and the parameters bound to it.

use vstd::prelude::*;

use crate::text::{
    chars_of, lowercase, push_char, push_str, str_eq, string_of, to_lowercase, trim_str,
    trimmed,
};

verus! {

// ---------------------------------------------------------------------------
// Segment labels
// ---------------------------------------------------------------------------

/// A structured condition answered by per-segment analysis rather than by text.
#[derive(Debug, Clone, Copy, PartialEq, Eq, Structural)]
pub enum SegmentLabel {
    Subtitle,
    GameUi,
    BlackFrame,
    Blurry,
}

/// The label that a trimmed, lower-cased search word names.
pub open spec fn label_for_word(w: Seq<char>) -> Option<SegmentLabel> {
    if w == "字幕"@ || w == "subtitle"@ || w == "subtitles"@ || w == "caption"@ || w
        == "captions"@ {
        Some(SegmentLabel::Subtitle)
    } else if w == "ui"@ || w == "game ui"@ || w == "hud"@ || w == "interface"@ {
        Some(SegmentLabel::GameUi)
    } else if w == "黑帧"@ || w == "黑屏"@ || w == "black frame"@ || w == "black frames"@ || w
        == "black screen"@ {
        Some(SegmentLabel::BlackFrame)
    } else if w == "模糊"@ || w == "blur"@ || w == "blurry"@ || w == "out of focus"@ {
        Some(SegmentLabel::Blurry)
    } else {
        None
    }
}

/// The label named by a search term: the term is trimmed and lower-cased first.
pub open spec fn label_for_term(t: Seq<char>) -> Option<SegmentLabel> {
    label_for_word(lowercase(trimmed(t)))
}

/// Recognises a structured segment condition in a search term.
pub fn segment_label_for_term(term: &str) -> (r: Option<SegmentLabel>)
    ensures
        r == label_for_term(term@),
{
    let trimmed_chars = trim_str(term);
    let trimmed_string = string_of(&trimmed_chars);
    let lower = to_lowercase(trimmed_string.as_str());
    let w = lower.as_str();
    if str_eq(w, "字幕") || str_eq(w, "subtitle") || str_eq(w, "subtitles") || str_eq(w, "caption")
        || str_eq(w, "captions") {
        Some(SegmentLabel::Subtitle)
    } else if str_eq(w, "ui") || str_eq(w, "game ui") || str_eq(w, "hud") || str_eq(
        w,
        "interface",
    ) {
        Some(SegmentLabel::GameUi)
    } else if str_eq(w, "黑帧") || str_eq(w, "黑屏") || str_eq(w, "black frame") || str_eq(
        w,
        "black frames",
    ) || str_eq(w, "black screen") {
        Some(SegmentLabel::BlackFrame)
    } else if str_eq(w, "模糊") || str_eq(w, "blur") || str_eq(w, "blurry") || str_eq(
        w,
        "out of focus",
    ) {
        Some(SegmentLabel::Blurry)
    } else {
        None
    }
}

/// Per-segment analysis flags that decide the structured labels: the app
/// derives them from the stored subtitle/HUD booleans and from the black-frame
/// (at least 0.85) and blur (at least 0.80) scores.
#[derive(Debug, Clone, Copy, PartialEq, Eq, Structural)]
pub struct SegmentFlags {
    pub subtitle: bool,
    pub game_ui: bool,
    pub black_frame: bool,
    pub blurry: bool,
}

impl SegmentLabel {
    /// Asset-level SQL predicate for the label, or for its absence.
    pub open spec fn sql_text(self, positive: bool) -> Seq<char> {
        match (self, positive) {
            (SegmentLabel::Subtitle, true) => "EXISTS (SELECT 1 FROM segments WHERE segments.asset_id = assets.id AND segments.subtitle_present = 1)"@,
            (SegmentLabel::Subtitle, false) => "NOT EXISTS (SELECT 1 FROM segments WHERE segments.asset_id = assets.id AND segments.subtitle_present = 1)"@,
            (SegmentLabel::GameUi, true) => "EXISTS (SELECT 1 FROM segments WHERE segments.asset_id = assets.id AND segments.game_ui = 1)"@,
            (SegmentLabel::GameUi, false) => "NOT EXISTS (SELECT 1 FROM segments WHERE segments.asset_id = assets.id AND segments.game_ui = 1)"@,
            (SegmentLabel::BlackFrame, true) => "EXISTS (SELECT 1 FROM segments WHERE segments.asset_id = assets.id AND segments.black_frame_score >= 0.85)"@,
            (SegmentLabel::BlackFrame, false) => "NOT EXISTS (SELECT 1 FROM segments WHERE segments.asset_id = assets.id AND segments.black_frame_score >= 0.85)"@,
            (SegmentLabel::Blurry, true) => "EXISTS (SELECT 1 FROM segments WHERE segments.asset_id = assets.id AND segments.blur_score >= 0.80)"@,
            (SegmentLabel::Blurry, false) => "NOT EXISTS (SELECT 1 FROM segments WHERE segments.asset_id = assets.id AND segments.blur_score >= 0.80)"@,
        }
    }

    /// Predicate scoped to one candidate segment. The negative form treats a
    /// missing analysis value as "not flagged".
    pub open spec fn segment_text(self, positive: bool) -> Seq<char> {
        match (self, positive) {
            (SegmentLabel::Subtitle, true) => "segments.subtitle_present = 1"@,
            (SegmentLabel::Subtitle, false) => "(segments.subtitle_present IS NULL OR segments.subtitle_present = 0)"@,
            (SegmentLabel::GameUi, true) => "segments.game_ui = 1"@,
            (SegmentLabel::GameUi, false) => "(segments.game_ui IS NULL OR segments.game_ui = 0)"@,
            (SegmentLabel::BlackFrame, true) => "segments.black_frame_score >= 0.85"@,
            (SegmentLabel::BlackFrame, false) => "(segments.black_frame_score IS NULL OR segments.black_frame_score < 0.85)"@,
            (SegmentLabel::Blurry, true) => "segments.blur_score >= 0.80"@,
            (SegmentLabel::Blurry, false) => "(segments.blur_score IS NULL OR segments.blur_score < 0.80)"@,
        }
    }

    /// The explanation shown for a label hit.
    pub open spec fn explanation_text(self) -> Seq<char> {
        match self {
            SegmentLabel::Subtitle => "本地字幕提示"@,
            SegmentLabel::GameUi => "本地 HUD 提示（双下角高对比元素）"@,
            SegmentLabel::BlackFrame => "本地黑帧提示（黑帧比例 ≥ 85%）"@,
            SegmentLabel::Blurry => "本地低细节/模糊提示（模糊分 ≥ 80%）"@,
        }
    }

    /// Whether a segment with these flags carries the label.
    pub open spec fn flagged(self, flags: SegmentFlags) -> bool {
        match self {
            SegmentLabel::Subtitle => flags.subtitle,
            SegmentLabel::GameUi => flags.game_ui,
            SegmentLabel::BlackFrame => flags.black_frame,
            SegmentLabel::Blurry => flags.blurry,
        }
    }

    pub fn sql_predicate(self, positive: bool) -> (r: &'static str)
        ensures
            r@ == self.sql_text(positive),
    {
        match (self, positive) {
            (SegmentLabel::Subtitle, true) => "EXISTS (SELECT 1 FROM segments WHERE segments.asset_id = assets.id AND segments.subtitle_present = 1)",
            (SegmentLabel::Subtitle, false) => "NOT EXISTS (SELECT 1 FROM segments WHERE segments.asset_id = assets.id AND segments.subtitle_present = 1)",
            (SegmentLabel::GameUi, true) => "EXISTS (SELECT 1 FROM segments WHERE segments.asset_id = assets.id AND segments.game_ui = 1)",
            (SegmentLabel::GameUi, false) => "NOT EXISTS (SELECT 1 FROM segments WHERE segments.asset_id = assets.id AND segments.game_ui = 1)",
            (SegmentLabel::BlackFrame, true) => "EXISTS (SELECT 1 FROM segments WHERE segments.asset_id = assets.id AND segments.black_frame_score >= 0.85)",
            (SegmentLabel::BlackFrame, false) => "NOT EXISTS (SELECT 1 FROM segments WHERE segments.asset_id = assets.id AND segments.black_frame_score >= 0.85)",
            (SegmentLabel::Blurry, true) => "EXISTS (SELECT 1 FROM segments WHERE segments.asset_id = assets.id AND segments.blur_score >= 0.80)",
            (SegmentLabel::Blurry, false) => "NOT EXISTS (SELECT 1 FROM segments WHERE segments.asset_id = assets.id AND segments.blur_score >= 0.80)",
        }
    }

    pub fn segment_predicate(self, positive: bool) -> (r: &'static str)
        ensures
            r@ == self.segment_text(positive),
    {
        match (self, positive) {
            (SegmentLabel::Subtitle, true) => "segments.subtitle_present = 1",
            (SegmentLabel::Subtitle, false) => "(segments.subtitle_present IS NULL OR segments.subtitle_present = 0)",
            (SegmentLabel::GameUi, true) => "segments.game_ui = 1",
            (SegmentLabel::GameUi, false) => "(segments.game_ui IS NULL OR segments.game_ui = 0)",
            (SegmentLabel::BlackFrame, true) => "segments.black_frame_score >= 0.85",
            (SegmentLabel::BlackFrame, false) => "(segments.black_frame_score IS NULL OR segments.black_frame_score < 0.85)",
            (SegmentLabel::Blurry, true) => "segments.blur_score >= 0.80",
            (SegmentLabel::Blurry, false) => "(segments.blur_score IS NULL OR segments.blur_score < 0.80)",
        }
    }

    pub fn explanation(self) -> (r: &'static str)
        ensures
            r@ == self.explanation_text(),
    {
        match self {
            SegmentLabel::Subtitle => "本地字幕提示",
            SegmentLabel::GameUi => "本地 HUD 提示（双下角高对比元素）",
            SegmentLabel::BlackFrame => "本地黑帧提示（黑帧比例 ≥ 85%）",
            SegmentLabel::Blurry => "本地低细节/模糊提示（模糊分 ≥ 80%）",
        }
    }

    /// Whether a segment with the given analysis flags carries this label.
    pub fn matches_flags(self, flags: &SegmentFlags) -> (r: bool)
        ensures
            r == self.flagged(*flags),
    {
        match self {
            SegmentLabel::Subtitle => flags.subtitle,
            SegmentLabel::GameUi => flags.game_ui,
            SegmentLabel::BlackFrame => flags.black_frame,
            SegmentLabel::Blurry => flags.blurry,
        }
    }
}

// ---------------------------------------------------------------------------
// LIKE patterns
// ---------------------------------------------------------------------------

/// Escaping of one character inside a `LIKE ... ESCAPE '\'` pattern.
pub open spec fn like_escape_char(c: char) -> Seq<char> {
    if c == '\\' {
        seq!['\\', '\\']
    } else if c == '%' {
        seq!['\\', '%']
    } else if c == '_' {
        seq!['\\', '_']
    } else {
        seq![c]
    }
}

/// A term with its backslashes, `%` and `_` escaped for `LIKE`.
pub open spec fn like_escaped(s: Seq<char>) -> Seq<char>
    decreases s.len(),
{
    if s.len() == 0 {
        Seq::empty()
    } else {
        like_escaped(s.drop_last()) + like_escape_char(s.last())
    }
}

/// The substring pattern that matches `term` literally anywhere.
pub open spec fn like_pattern(term: Seq<char>) -> Seq<char> {
    seq!['%'] + like_escaped(term) + seq!['%']
}

/// Builds the `LIKE` pattern for a literal substring search.
pub fn search_pattern(term: &str) -> (r: String)
    ensures
        r@ == like_pattern(term@),
{
    let cs = chars_of(term);
    let mut out = String::new();
    push_char(&mut out, '%');
    let n = cs.len();
    for i in 0..n
        invariant
            n == cs@.len(),
            cs@ == term@,
            out@ == seq!['%'] + like_escaped(cs@.take(i as int)),
    {
        let c = cs[i];
        if c == '\\' {
            push_char(&mut out, '\\');
            push_char(&mut out, '\\');
        } else if c == '%' {
            push_char(&mut out, '\\');
            push_char(&mut out, '%');
        } else if c == '_' {
            push_char(&mut out, '\\');
            push_char(&mut out, '_');
        } else {
            push_char(&mut out, c);
        }
        assert(cs@.take(i + 1).drop_last() =~= cs@.take(i as int));
        assert(out@ =~= seq!['%'] + like_escaped(cs@.take(i + 1)));
    }
    assert(cs@.take(n as int) =~= cs@);
    push_char(&mut out, '%');
    assert(out@ =~= like_pattern(term@));
    out
}


// ---------------------------------------------------------------------------
// Search requests and the SQL that answers them
// ---------------------------------------------------------------------------

/// A parsed creator search. The minimum quality threshold is a float that
/// the app binds itself; the library only records whether one was given.
#[derive(Debug, Clone)]
pub struct SearchRequest {
    pub raw_query: String,
    pub must: Vec<String>,
    pub should: Vec<String>,
    pub must_not: Vec<String>,
    pub media_types: Vec<String>,
    pub has_min_quality_score: bool,
}

/// A value bound to one `?` of a generated statement.
#[derive(Debug, Clone, PartialEq, Eq)]
pub enum SqlParam {
    Text(String),
    /// The request's minimum quality score, bound by the app.
    MinQualityScore,
    Integer(i64),
}

/// Mathematical form of a bound value.
pub enum SqlParamView {
    Text(Seq<char>),
    MinQualityScore,
    Integer(i64),
}

impl DeepView for SqlParam {
    type V = SqlParamView;

    open spec fn deep_view(&self) -> SqlParamView {
        match self {
            SqlParam::Text(s) => SqlParamView::Text(s@),
            SqlParam::MinQualityScore => SqlParamView::MinQualityScore,
            SqlParam::Integer(v) => SqlParamView::Integer(*v),
        }
    }
}

/// A statement with the values for its placeholders, in order.
#[derive(Debug, Clone)]
pub struct ConditionQuery {
    pub sql: String,
    pub params: Vec<SqlParam>,
}

/// Text match of one term against file name, path and confirmed ACG tags.
pub open spec fn text_match_sql() -> Seq<char> {
    "(file_name LIKE ? ESCAPE '\\' OR file_path LIKE ? ESCAPE '\\' OR EXISTS (SELECT 1 FROM tags WHERE scope_type = 'asset' AND scope_id = assets.id AND namespace = 'acg_creator' AND value LIKE ? ESCAPE '\\'))"@
}

/// The three bindings of one text match.
pub open spec fn pattern_params(term: Seq<char>) -> Seq<SqlParamView> {
    seq![
        SqlParamView::Text(like_pattern(term)),
        SqlParamView::Text(like_pattern(term)),
        SqlParamView::Text(like_pattern(term)),
    ]
}

/// Labels named by the terms, in order (terms that name none are skipped).
pub open spec fn labels_in(terms: Seq<Seq<char>>) -> Seq<SegmentLabel>
    decreases terms.len(),
{
    if terms.len() == 0 {
        Seq::empty()
    } else {
        labels_in(terms.drop_last()) + match label_for_term(terms.last()) {
            Some(l) => seq![l],
            None => Seq::empty(),
        }
    }
}

/// Terms that name no label, in order.
pub open spec fn text_terms(terms: Seq<Seq<char>>) -> Seq<Seq<char>>
    decreases terms.len(),
{
    if terms.len() == 0 {
        Seq::empty()
    } else {
        text_terms(terms.drop_last()) + if label_for_term(terms.last()) is None {
            seq![terms.last()]
        } else {
            Seq::empty()
        }
    }
}

/// The Must terms that apply: the request's own, or the trimmed raw query
/// when the request carries no Must and no Must Not term.
pub open spec fn effective_must(req: SearchRequest) -> Seq<Seq<char>> {
    if req.must.len() == 0 && req.must_not.len() == 0 && trimmed(req.raw_query@).len() > 0 {
        seq![trimmed(req.raw_query@)]
    } else {
        req.must.deep_view()
    }
}

/// Relevance expression: one point for each satisfied Should term.
pub open spec fn score_sql(should: Seq<Seq<char>>) -> Seq<char>
    decreases should.len(),
{
    if should.len() == 0 {
        "0"@
    } else {
        score_sql(should.drop_last()) + match label_for_term(should.last()) {
            Some(l) => " + CASE WHEN "@ + l.sql_text(true) + " THEN 1 ELSE 0 END"@,
            None => " + CASE WHEN "@ + text_match_sql() + " THEN 1 ELSE 0 END"@,
        }
    }
}

/// Bindings of the relevance expression.
pub open spec fn score_params(should: Seq<Seq<char>>) -> Seq<SqlParamView>
    decreases should.len(),
{
    if should.len() == 0 {
        Seq::empty()
    } else {
        score_params(should.drop_last()) + match label_for_term(should.last()) {
            Some(l) => Seq::empty(),
            None => pattern_params(should.last()),
        }
    }
}

/// `n` placeholders separated by `, `.
pub open spec fn placeholders(n: nat) -> Seq<char>
    decreases n,
{
    if n == 0 {
        Seq::empty()
    } else if n == 1 {
        "?"@
    } else {
        placeholders((n - 1) as nat) + ", ?"@
    }
}

/// Joins pieces with a separator.
pub open spec fn joined(pieces: Seq<Seq<char>>, sep: Seq<char>) -> Seq<char>
    decreases pieces.len(),
{
    if pieces.len() == 0 {
        Seq::empty()
    } else if pieces.len() == 1 {
        pieces[0]
    } else {
        joined(pieces.drop_last(), sep) + sep + pieces.last()
    }
}

/// Segment-scoped predicates: the positive labels, then the negated ones.
pub open spec fn label_predicates(pos: Seq<SegmentLabel>, neg: Seq<SegmentLabel>) -> Seq<
    Seq<char>,
> {
    pos.map_values(|l: SegmentLabel| l.segment_text(true)) + neg.map_values(
        |l: SegmentLabel| l.segment_text(false),
    )
}

/// One segment of the asset must satisfy every positive label and none of
/// the negative ones; no predicate at all when there are no labels.
pub open spec fn labels_predicate(pos: Seq<SegmentLabel>, neg: Seq<SegmentLabel>) -> Option<
    Seq<char>,
> {
    if pos.len() == 0 && neg.len() == 0 {
        None
    } else {
        Some(
            "EXISTS (SELECT 1 FROM segments WHERE segments.asset_id = assets.id AND "@ + joined(
                label_predicates(pos, neg),
                " AND "@,
            ) + ")"@,
        )
    }
}

/// Required text matches.
pub open spec fn must_sql(terms: Seq<Seq<char>>) -> Seq<char>
    decreases terms.len(),
{
    if terms.len() == 0 {
        Seq::empty()
    } else {
        must_sql(terms.drop_last()) + " AND "@ + text_match_sql()
    }
}

pub open spec fn must_params(terms: Seq<Seq<char>>) -> Seq<SqlParamView>
    decreases terms.len(),
{
    if terms.len() == 0 {
        Seq::empty()
    } else {
        must_params(terms.drop_last()) + pattern_params(terms.last())
    }
}

/// Excluded text matches; Must Not terms that name a label are handled by
/// the segment predicate instead.
pub open spec fn must_not_sql(terms: Seq<Seq<char>>) -> Seq<char>
    decreases terms.len(),
{
    if terms.len() == 0 {
        Seq::empty()
    } else {
        must_not_sql(terms.drop_last()) + if label_for_term(terms.last()) is None {
            " AND NOT "@ + text_match_sql()
        } else {
            Seq::empty()
        }
    }
}

pub open spec fn must_not_params(terms: Seq<Seq<char>>) -> Seq<SqlParamView>
    decreases terms.len(),
{
    if terms.len() == 0 {
        Seq::empty()
    } else {
        must_not_params(terms.drop_last()) + if label_for_term(terms.last()) is None {
            pattern_params(terms.last())
        } else {
            Seq::empty()
        }
    }
}

/// Media-type restriction.
pub open spec fn media_sql(media: Seq<Seq<char>>) -> Seq<char> {
    if media.len() == 0 {
        Seq::empty()
    } else {
        " AND media_type IN ("@ + placeholders(media.len()) + ")"@
    }
}

pub open spec fn media_params(media: Seq<Seq<char>>) -> Seq<SqlParamView> {
    media.map_values(|m: Seq<char>| SqlParamView::Text(m))
}

/// Minimum quality restriction: images always pass; other media need a
/// segment with at least that quality score.
pub open spec fn quality_sql(has_min: bool) -> Seq<char> {
    if has_min {
        " AND (media_type = 'image' OR EXISTS (SELECT 1 FROM segments WHERE segments.asset_id = assets.id AND quality_score >= ?))"@
    } else {
        Seq::empty()
    }
}

pub open spec fn quality_params(has_min: bool) -> Seq<SqlParamView> {
    if has_min {
        seq![SqlParamView::MinQualityScore]
    } else {
        Seq::empty()
    }
}

pub open spec fn optional_sql(p: Option<Seq<char>>) -> Seq<char> {
    match p {
        Some(text) => " AND "@ + text,
        None => Seq::empty(),
    }
}

pub open spec fn asset_columns() -> Seq<char> {
    "SELECT id, library_id, media_type, file_path, normalized_path, file_name, extension, size_bytes, modified_at, quick_fingerprint, full_hash, duration_ms, width, height, fps, codec, capture_time, status, index_level, analysis_version, created_at, updated_at"@
}

/// Whether a keyword query runs at all.
pub open spec fn has_conditions(req: SearchRequest) -> bool {
    effective_must(req).len() > 0 || req.should.len() > 0 || req.must_not.len() > 0
}

/// The keyword candidate statement: indexed assets passing every hard
/// condition, ordered by satisfied Should terms, then most recently modified.
pub open spec fn condition_sql(req: SearchRequest) -> Seq<char> {
    let must = effective_must(req);
    asset_columns() + ", ("@ + score_sql(req.should.deep_view())
        + ") AS relevance FROM assets WHERE status = 'indexed'"@ + media_sql(
        req.media_types.deep_view(),
    ) + quality_sql(req.has_min_quality_score) + optional_sql(
        labels_predicate(labels_in(must), labels_in(req.must_not.deep_view())),
    ) + must_sql(text_terms(must)) + must_not_sql(req.must_not.deep_view())
        + " ORDER BY relevance DESC, modified_at DESC LIMIT ?"@
}

pub open spec fn condition_params(req: SearchRequest, limit: usize) -> Seq<SqlParamView> {
    let must = effective_must(req);
    score_params(req.should.deep_view()) + media_params(req.media_types.deep_view())
        + quality_params(req.has_min_quality_score) + must_params(text_terms(must))
        + must_not_params(req.must_not.deep_view()) + seq![SqlParamView::Integer(limit as i64)]
}

/// The statement of the hard filters that semantic candidates must pass:
/// media type, quality, segment labels and Must Not, but no text Must.
pub open spec fn nonsemantic_sql(req: SearchRequest) -> Seq<char> {
    asset_columns() + " FROM assets WHERE status = 'indexed'"@ + media_sql(
        req.media_types.deep_view(),
    ) + quality_sql(req.has_min_quality_score) + optional_sql(
        labels_predicate(labels_in(req.must.deep_view()), labels_in(req.must_not.deep_view())),
    ) + must_not_sql(req.must_not.deep_view()) + " ORDER BY modified_at DESC LIMIT ?"@
}

pub open spec fn nonsemantic_params(req: SearchRequest, limit: usize) -> Seq<SqlParamView> {
    media_params(req.media_types.deep_view()) + quality_params(req.has_min_quality_score)
        + must_not_params(req.must_not.deep_view()) + seq![SqlParamView::Integer(limit as i64)]
}

fn push_text_params(params: &mut Vec<SqlParam>, term: &str)
    ensures
        final(params).deep_view() == old(params).deep_view() + pattern_params(term@),
{
    let pattern = search_pattern(term);
    let ghost before = params.deep_view();
    params.push(SqlParam::Text(pattern.clone()));
    params.push(SqlParam::Text(pattern.clone()));
    params.push(SqlParam::Text(pattern));
    assert(params.deep_view() =~= before + pattern_params(term@));
}

/// Labels named by the terms, in order.
pub fn labels_from(terms: &Vec<String>) -> (r: Vec<SegmentLabel>)
    ensures
        r@ == labels_in(terms.deep_view()),
{
    let mut out: Vec<SegmentLabel> = Vec::new();
    let n = terms.len();
    for i in 0..n
        invariant
            n == terms@.len(),
            out@ == labels_in(terms.deep_view().take(i as int)),
    {
        let ghost ts = terms.deep_view().take(i + 1);
        assert(ts.drop_last() =~= terms.deep_view().take(i as int));
        assert(ts.last() == terms@[i as int]@);
        if let Some(label) = segment_label_for_term(terms[i].as_str()) {
            out.push(label);
        }
        assert(out@ =~= labels_in(ts));
    }
    assert(terms.deep_view().take(n as int) =~= terms.deep_view());
    out
}

fn push_joined_predicates(
    out: &mut String,
    pos: &Vec<SegmentLabel>,
    neg: &Vec<SegmentLabel>,
)
    ensures
        final(out)@ == old(out)@ + joined(label_predicates(pos@, neg@), " AND "@),
{
    let ghost preds = label_predicates(pos@, neg@);
    let np = pos.len();
    let nn = neg.len();
    let ghost start = out@;
    for i in 0..np
        invariant
            np == pos@.len(),
            nn == neg@.len(),
            preds == label_predicates(pos@, neg@),
            preds.len() == np + nn,
            out@ == start + joined(preds.take(i as int), " AND "@),
    {
        proof {
            assert(preds.take(i + 1).drop_last() =~= preds.take(i as int));
            assert(preds[i as int] == pos@[i as int].segment_text(true));
        }
        if i > 0 {
            push_str(out, " AND ");
        }
        push_str(out, pos[i].segment_predicate(true));
        proof {
            if i == 0 {
                assert(preds.take(1) =~= seq![preds[0]]);
            }
        }
        assert(out@ =~= start + joined(preds.take(i + 1), " AND "@));
    }
    for j in 0..nn
        invariant
            np == pos@.len(),
            nn == neg@.len(),
            preds == label_predicates(pos@, neg@),
            preds.len() == np + nn,
            out@ == start + joined(preds.take(np + j), " AND "@),
    {
        let ghost k: int = np + j;
        proof {
            assert(preds.take(k + 1).drop_last() =~= preds.take(k));
            assert(preds[k] == neg@[j as int].segment_text(false));
        }
        if np > 0 || j > 0 {
            push_str(out, " AND ");
        }
        push_str(out, neg[j].segment_predicate(false));
        proof {
            if k == 0 {
                assert(preds.take(1) =~= seq![preds[0]]);
            }
        }
        assert(out@ =~= start + joined(preds.take(k + 1), " AND "@));
    }
    assert(preds.take(np + nn) =~= preds);
}

/// The segment-scoped condition for required and excluded labels, if any.
pub fn segment_labels_predicate(pos: &Vec<SegmentLabel>, neg: &Vec<SegmentLabel>) -> (r: Option<
    String,
>)
    ensures
        r matches Some(s) ==> labels_predicate(pos@, neg@) == Some(s@),
        r is None ==> labels_predicate(pos@, neg@) is None,
{
    if pos.len() == 0 && neg.len() == 0 {
        return None;
    }
    let mut out = String::new();
    push_str(&mut out, "EXISTS (SELECT 1 FROM segments WHERE segments.asset_id = assets.id AND ");
    push_joined_predicates(&mut out, pos, neg);
    push_char(&mut out, ')');
    proof {
        reveal_strlit(")");
        assert(")"@ =~= seq![')']);
    }
    assert(out@ =~= "EXISTS (SELECT 1 FROM segments WHERE segments.asset_id = assets.id AND "@
        + joined(label_predicates(pos@, neg@), " AND "@) + ")"@);
    Some(out)
}

fn push_media_filter(sql: &mut String, params: &mut Vec<SqlParam>, media: &Vec<String>)
    ensures
        final(sql)@ == old(sql)@ + media_sql(media.deep_view()),
        final(params).deep_view() == old(params).deep_view() + media_params(media.deep_view()),
{
    let n = media.len();
    if n == 0 {
        assert(media_params(media.deep_view()) =~= Seq::<SqlParamView>::empty());
        assert(params.deep_view() =~= old(params).deep_view() + media_params(media.deep_view()));
        assert(sql@ =~= old(sql)@ + media_sql(media.deep_view()));
        return;
    }
    push_str(sql, " AND media_type IN (");
    let ghost sql_start = sql@;
    let ghost params_start = params.deep_view();
    for i in 0..n
        invariant
            n == media@.len(),
            n > 0,
            sql@ == sql_start + placeholders(i as nat),
            params.deep_view() == params_start + media_params(media.deep_view().take(i as int)),
    {
        if i == 0 {
            push_str(sql, "?");
        } else {
            push_str(sql, ", ?");
        }
        let ghost before = params.deep_view();
        let item = media[i].clone();
        params.push(SqlParam::Text(item));
        assert(params.deep_view() =~= before.push(SqlParamView::Text(media@[i as int]@)));
        assert(sql@ =~= sql_start + placeholders((i + 1) as nat));
        assert(media.deep_view().take(i + 1) =~= media.deep_view().take(i as int).push(
            media@[i as int]@,
        ));
        assert(media_params(media.deep_view().take(i + 1)) =~= media_params(
            media.deep_view().take(i as int),
        ).push(SqlParamView::Text(media@[i as int]@)));
        assert(params.deep_view() =~= params_start + media_params(media.deep_view().take(i + 1)));
    }
    push_str(sql, ")");
    assert(media.deep_view().take(n as int) =~= media.deep_view());
    assert(sql@ =~= old(sql)@ + media_sql(media.deep_view()));
}

fn push_quality_filter(sql: &mut String, params: &mut Vec<SqlParam>, has_min: bool)
    ensures
        final(sql)@ == old(sql)@ + quality_sql(has_min),
        final(params).deep_view() == old(params).deep_view() + quality_params(has_min),
{
    if has_min {
        push_str(
            sql,
            " AND (media_type = 'image' OR EXISTS (SELECT 1 FROM segments WHERE segments.asset_id = assets.id AND quality_score >= ?))",
        );
        params.push(SqlParam::MinQualityScore);
    }
    assert(sql@ =~= old(sql)@ + quality_sql(has_min));
    assert(params.deep_view() =~= old(params).deep_view() + quality_params(has_min));
}

fn push_optional(sql: &mut String, p: &Option<String>)
    ensures
        final(sql)@ == old(sql)@ + optional_sql(
            match p {
                Some(s) => Some(s@),
                None => None,
            },
        ),
{
    match p {
        Some(text) => {
            push_str(sql, " AND ");
            push_str(sql, text.as_str());
        },
        None => {
            assert(sql@ =~= old(sql)@ + Seq::<char>::empty());
        },
    }
}

fn push_must_filter(sql: &mut String, params: &mut Vec<SqlParam>, terms: &Vec<String>)
    ensures
        final(sql)@ == old(sql)@ + must_sql(terms.deep_view()),
        final(params).deep_view() == old(params).deep_view() + must_params(terms.deep_view()),
{
    let n = terms.len();
    let ghost sql_start = sql@;
    let ghost params_start = params.deep_view();
    for i in 0..n
        invariant
            n == terms@.len(),
            sql@ == sql_start + must_sql(terms.deep_view().take(i as int)),
            params.deep_view() == params_start + must_params(terms.deep_view().take(i as int)),
    {
        let ghost ts = terms.deep_view().take(i + 1);
        assert(ts.drop_last() =~= terms.deep_view().take(i as int));
        assert(ts.last() == terms@[i as int]@);
        push_str(sql, " AND ");
        push_str(
            sql,
            "(file_name LIKE ? ESCAPE '\\' OR file_path LIKE ? ESCAPE '\\' OR EXISTS (SELECT 1 FROM tags WHERE scope_type = 'asset' AND scope_id = assets.id AND namespace = 'acg_creator' AND value LIKE ? ESCAPE '\\'))",
        );
        push_text_params(params, terms[i].as_str());
        assert(sql@ =~= sql_start + must_sql(ts));
        assert(params.deep_view() =~= params_start + must_params(ts));
    }
    assert(terms.deep_view().take(n as int) =~= terms.deep_view());
}

fn push_must_not_filter(sql: &mut String, params: &mut Vec<SqlParam>, terms: &Vec<String>)
    ensures
        final(sql)@ == old(sql)@ + must_not_sql(terms.deep_view()),
        final(params).deep_view() == old(params).deep_view() + must_not_params(
            terms.deep_view(),
        ),
{
    let n = terms.len();
    let ghost sql_start = sql@;
    let ghost params_start = params.deep_view();
    for i in 0..n
        invariant
            n == terms@.len(),
            sql@ == sql_start + must_not_sql(terms.deep_view().take(i as int)),
            params.deep_view() == params_start + must_not_params(terms.deep_view().take(i as int)),
    {
        let ghost ts = terms.deep_view().take(i + 1);
        assert(ts.drop_last() =~= terms.deep_view().take(i as int));
        assert(ts.last() == terms@[i as int]@);
        if segment_label_for_term(terms[i].as_str()).is_none() {
            push_str(sql, " AND NOT ");
            push_str(
                sql,
                "(file_name LIKE ? ESCAPE '\\' OR file_path LIKE ? ESCAPE '\\' OR EXISTS (SELECT 1 FROM tags WHERE scope_type = 'asset' AND scope_id = assets.id AND namespace = 'acg_creator' AND value LIKE ? ESCAPE '\\'))",
            );
            push_text_params(params, terms[i].as_str());
        }
        assert(sql@ =~= sql_start + must_not_sql(ts));
        assert(params.deep_view() =~= params_start + must_not_params(ts));
    }
    assert(terms.deep_view().take(n as int) =~= terms.deep_view());
}

fn push_score(sql: &mut String, params: &mut Vec<SqlParam>, should: &Vec<String>)
    ensures
        final(sql)@ == old(sql)@ + score_sql(should.deep_view()),
        final(params).deep_view() == old(params).deep_view() + score_params(should.deep_view()),
{
    let n = should.len();
    let ghost sql_start = sql@;
    let ghost params_start = params.deep_view();
    push_str(sql, "0");
    assert(should.deep_view().take(0) =~= Seq::<Seq<char>>::empty());
    assert(params.deep_view() =~= params_start + score_params(should.deep_view().take(0)));
    for i in 0..n
        invariant
            n == should@.len(),
            sql@ == sql_start + score_sql(should.deep_view().take(i as int)),
            params.deep_view() == params_start + score_params(should.deep_view().take(i as int)),
    {
        let ghost ts = should.deep_view().take(i + 1);
        assert(ts.drop_last() =~= should.deep_view().take(i as int));
        assert(ts.last() == should@[i as int]@);
        match segment_label_for_term(should[i].as_str()) {
            Some(label) => {
                push_str(sql, " + CASE WHEN ");
                push_str(sql, label.sql_predicate(true));
                push_str(sql, " THEN 1 ELSE 0 END");
            },
            None => {
                push_str(sql, " + CASE WHEN ");
                push_str(
                    sql,
                    "(file_name LIKE ? ESCAPE '\\' OR file_path LIKE ? ESCAPE '\\' OR EXISTS (SELECT 1 FROM tags WHERE scope_type = 'asset' AND scope_id = assets.id AND namespace = 'acg_creator' AND value LIKE ? ESCAPE '\\'))",
                );
                push_str(sql, " THEN 1 ELSE 0 END");
                push_text_params(params, should[i].as_str());
            },
        }
        assert(sql@ =~= sql_start + score_sql(ts));
        assert(params.deep_view() =~= params_start + score_params(ts));
    }
    assert(should.deep_view().take(n as int) =~= should.deep_view());
}

/// Terms that name no label, in order.
pub fn text_terms_of(terms: &Vec<String>) -> (r: Vec<String>)
    ensures
        r.deep_view() == text_terms(terms.deep_view()),
{
    let mut out: Vec<String> = Vec::new();
    let n = terms.len();
    for i in 0..n
        invariant
            n == terms@.len(),
            out.deep_view() == text_terms(terms.deep_view().take(i as int)),
    {
        let ghost ts = terms.deep_view().take(i + 1);
        assert(ts.drop_last() =~= terms.deep_view().take(i as int));
        assert(ts.last() == terms@[i as int]@);
        if segment_label_for_term(terms[i].as_str()).is_none() {
            out.push(terms[i].clone());
        }
        assert(out.deep_view() =~= text_terms(ts));
    }
    assert(terms.deep_view().take(n as int) =~= terms.deep_view());
    out
}

/// The Must terms that apply to a request.
pub fn effective_must_terms(request: &SearchRequest) -> (r: Vec<String>)
    ensures
        r.deep_view() == effective_must(*request),
{
    if request.must.len() == 0 && request.must_not.len() == 0 {
        let raw = trim_str(request.raw_query.as_str());
        if raw.len() > 0 {
            let mut out: Vec<String> = Vec::new();
            out.push(string_of(&raw));
            assert(out.deep_view() =~= seq![trimmed(request.raw_query@)]);
            return out;
        }
    }
    let out = request.must.clone();
    assert(out.deep_view() =~= request.must.deep_view());
    out
}

/// Plans the keyword candidate query of a search: `None` when the request
/// carries no condition at all (such a search has no keyword candidates);
/// otherwise the statement and its bindings, ending with `limit`.
pub fn search_assets_with_conditions(request: &SearchRequest, limit: usize) -> (r: Option<
    ConditionQuery,
>)
    ensures
        r is None <==> !has_conditions(*request),
        r matches Some(q) ==> q.sql@ == condition_sql(*request) && q.params.deep_view()
            == condition_params(*request, limit),
{
    let must = effective_must_terms(request);
    if must.len() == 0 && request.should.len() == 0 && request.must_not.len() == 0 {
        return None;
    }
    let must_labels = labels_from(&must);
    let must_text = text_terms_of(&must);
    let must_not_labels = labels_from(&request.must_not);
    let mut sql = String::new();
    let mut params: Vec<SqlParam> = Vec::new();
    push_str(
        &mut sql,
        "SELECT id, library_id, media_type, file_path, normalized_path, file_name, extension, size_bytes, modified_at, quick_fingerprint, full_hash, duration_ms, width, height, fps, codec, capture_time, status, index_level, analysis_version, created_at, updated_at",
    );
    push_str(&mut sql, ", (");
    push_score(&mut sql, &mut params, &request.should);
    push_str(&mut sql, ") AS relevance FROM assets WHERE status = 'indexed'");
    push_media_filter(&mut sql, &mut params, &request.media_types);
    push_quality_filter(&mut sql, &mut params, request.has_min_quality_score);
    let predicate = segment_labels_predicate(&must_labels, &must_not_labels);
    push_optional(&mut sql, &predicate);
    push_must_filter(&mut sql, &mut params, &must_text);
    push_must_not_filter(&mut sql, &mut params, &request.must_not);
    push_str(&mut sql, " ORDER BY relevance DESC, modified_at DESC LIMIT ?");
    let ghost before_limit = params.deep_view();
    params.push(SqlParam::Integer(limit as i64));
    assert(params.deep_view() =~= before_limit + seq![SqlParamView::Integer(limit as i64)]);
    assert(sql@ =~= condition_sql(*request));
    assert(params.deep_view() =~= condition_params(*request, limit));
    Some(ConditionQuery { sql, params })
}

/// Plans the statement of the hard filters that semantic candidates must
/// pass (media type, quality, segment labels, Must Not).
pub fn assets_matching_nonsemantic_filters(request: &SearchRequest, limit: usize) -> (r:
    ConditionQuery)
    ensures
        r.sql@ == nonsemantic_sql(*request),
        r.params.deep_view() == nonsemantic_params(*request, limit),
{
    let mut sql = String::new();
    let mut params: Vec<SqlParam> = Vec::new();
    push_str(
        &mut sql,
        "SELECT id, library_id, media_type, file_path, normalized_path, file_name, extension, size_bytes, modified_at, quick_fingerprint, full_hash, duration_ms, width, height, fps, codec, capture_time, status, index_level, analysis_version, created_at, updated_at",
    );
    push_str(&mut sql, " FROM assets WHERE status = 'indexed'");
    push_media_filter(&mut sql, &mut params, &request.media_types);
    push_quality_filter(&mut sql, &mut params, request.has_min_quality_score);
    let must_labels = labels_from(&request.must);
    let must_not_labels = labels_from(&request.must_not);
    let predicate = segment_labels_predicate(&must_labels, &must_not_labels);
    push_optional(&mut sql, &predicate);
    push_must_not_filter(&mut sql, &mut params, &request.must_not);
    push_str(&mut sql, " ORDER BY modified_at DESC LIMIT ?");
    let ghost before_limit = params.deep_view();
    params.push(SqlParam::Integer(limit as i64));
    assert(params.deep_view() =~= before_limit + seq![SqlParamView::Integer(limit as i64)]);
    assert(sql@ =~= nonsemantic_sql(*request));
    assert(params.deep_view() =~= nonsemantic_params(*request, limit));
    ConditionQuery { sql, params }
}


/// One required text term in the keyword statement: ` AND ` and the
/// text-match predicate.
pub open spec fn must_conjunct() -> Seq<char> {
    " AND "@ + text_match_sql()
}

/// Every text Must term is a conjunct of the WHERE clause: the Must part of
/// the statement is, term after term, ` AND ` followed by the text-match
/// predicate, and nothing else, so a candidate has to satisfy every term.
pub proof fn law_must_terms_are_conjoined(terms: Seq<Seq<char>>)
    ensures
        must_sql(terms).len() == terms.len() * must_conjunct().len(),
        forall|k: int|
            0 <= k < terms.len() ==> #[trigger] must_sql(terms).subrange(
                k * must_conjunct().len(),
                (k + 1) * must_conjunct().len(),
            ) == must_conjunct(),
    decreases terms.len(),
{
    let c = must_conjunct();
    let l = c.len() as int;
    if terms.len() > 0 {
        let d = terms.drop_last();
        law_must_terms_are_conjoined(d);
        let a = must_sql(d);
        let n = terms.len() as int;
        assert(must_sql(terms) =~= a + c);
        assert(a.len() == (n - 1) * l);
        assert(n * l == (n - 1) * l + l) by (nonlinear_arith);
        assert forall|k: int| 0 <= k < n implies #[trigger] must_sql(terms).subrange(k * l, (k + 1) * l) == c by {
            assert((k + 1) * l == k * l + l) by (nonlinear_arith);
            assert(0 <= k * l) by (nonlinear_arith)
                requires
                    0 <= k,
                    0 <= l,
            ;
            if k < n - 1 {
                assert((k + 1) * l <= (n - 1) * l) by (nonlinear_arith)
                    requires
                        k + 1 <= n - 1,
                        0 <= l,
                ;
                assert(a.subrange(k * l, (k + 1) * l) == c);
                assert((a + c).subrange(k * l, (k + 1) * l) =~= a.subrange(k * l, (k + 1) * l));
            } else {
                assert(k * l == (n - 1) * l);
                assert((a + c).subrange(k * l, (k + 1) * l) =~= c);
            }
        }
    }
}

} // verus!
