//! Explaining and ranking search candidates: which conditions each asset
//! satisfies, its score, and the final order with library diversity.

use vstd::prelude::*;

use crate::models::Asset;
use crate::order::{KeyView, SortKey, sort_order, sorted_order, permute, is_permutation, lemma_sorted_is_permutation};
use crate::search::{SearchRequest, SegmentFlags, SegmentLabel, joined, label_for_term, segment_label_for_term};
use crate::text::{
    chars_of, contains_chars, has_substring, lowercase, push_str, to_lowercase, trim_str,
    trimmed, string_of,
};

verus! {

/// One explained search hit. Scores are whole numbers of satisfied
/// conditions, so they are kept as integers.
#[derive(Debug, Clone)]
pub struct SearchResult {
    pub asset: Asset,
    pub score: i64,
    pub match_reasons: Vec<String>,
    pub unmet_should: Vec<String>,
    /// Exact segments satisfying structured subtitle/quality conditions. An
    /// empty list means that this result was not narrowed by a segment label.
    pub matching_segment_ids: Vec<String>,
}

/// The explanation part of a result.
pub struct Explanation {
    pub reasons: Seq<Seq<char>>,
    pub unmet: Seq<Seq<char>>,
    pub score: int,
}

pub open spec fn explanation_of(r: SearchResult) -> Explanation {
    Explanation {
        reasons: r.match_reasons.deep_view(),
        unmet: r.unmet_should.deep_view(),
        score: r.score as int,
    }
}

/// Lower-cased `"{file_name} {file_path}"`: the text that keyword terms match.
pub open spec fn searchable_text(a: Asset) -> Seq<char> {
    lowercase(a.file_name@ + " "@ + a.file_path@)
}

/// A term matches when its lower-cased form occurs in the searchable text.
pub open spec fn term_hits(hay: Seq<char>, term: Seq<char>) -> bool {
    has_substring(hay, lowercase(term))
}

pub open spec fn must_reasons(hay: Seq<char>, terms: Seq<Seq<char>>) -> Seq<Seq<char>>
    decreases terms.len(),
{
    if terms.len() == 0 {
        Seq::empty()
    } else {
        must_reasons(hay, terms.drop_last()) + if term_hits(hay, terms.last()) {
            seq!["满足必须条件："@ + terms.last()]
        } else {
            Seq::empty()
        }
    }
}

pub open spec fn should_reasons(hay: Seq<char>, terms: Seq<Seq<char>>) -> Seq<Seq<char>>
    decreases terms.len(),
{
    if terms.len() == 0 {
        Seq::empty()
    } else {
        should_reasons(hay, terms.drop_last()) + if term_hits(hay, terms.last()) {
            seq!["命中偏好条件："@ + terms.last()]
        } else {
            Seq::empty()
        }
    }
}

pub open spec fn hit_count(hay: Seq<char>, terms: Seq<Seq<char>>) -> nat
    decreases terms.len(),
{
    if terms.len() == 0 {
        0
    } else {
        hit_count(hay, terms.drop_last()) + if term_hits(hay, terms.last()) {
            1nat
        } else {
            0nat
        }
    }
}

/// Should terms that the asset does not match, in order.
pub open spec fn unmet_terms(hay: Seq<char>, terms: Seq<Seq<char>>) -> Seq<Seq<char>>
    decreases terms.len(),
{
    if terms.len() == 0 {
        Seq::empty()
    } else {
        unmet_terms(hay, terms.drop_last()) + if term_hits(hay, terms.last()) {
            Seq::empty()
        } else {
            seq![terms.last()]
        }
    }
}

pub proof fn lemma_hit_count_bound(hay: Seq<char>, terms: Seq<Seq<char>>)
    ensures
        hit_count(hay, terms) <= terms.len(),
    decreases terms.len(),
{
    if terms.len() > 0 {
        lemma_hit_count_bound(hay, terms.drop_last());
    }
}

pub open spec fn visual_reasons(visual: Option<Seq<char>>) -> Seq<Seq<char>> {
    match visual {
        Some(v) => seq![v],
        None => Seq::empty(),
    }
}

/// Reasons of a freshly explained candidate: the visual reason, satisfied
/// Must terms, satisfied Should terms, or the plain keyword recall note.
pub open spec fn explained_reasons(
    hay: Seq<char>,
    visual: Option<Seq<char>>,
    must: Seq<Seq<char>>,
    should: Seq<Seq<char>>,
) -> Seq<Seq<char>> {
    let r = visual_reasons(visual) + must_reasons(hay, must) + should_reasons(hay, should);
    if r.len() == 0 {
        seq!["按关键词召回"@]
    } else {
        r
    }
}

/// Score of a freshly explained candidate: one for a visual hit, two per
/// satisfied Must term and one per satisfied Should term.
pub open spec fn explained_score(
    hay: Seq<char>,
    visual: Option<Seq<char>>,
    must: Seq<Seq<char>>,
    should: Seq<Seq<char>>,
) -> int {
    (if visual is Some {
        1int
    } else {
        0int
    }) + 2 * hit_count(hay, must) + hit_count(hay, should)
}

fn searchable_of(asset: &Asset) -> (r: Vec<char>)
    ensures
        r@ == searchable_text(*asset),
{
    let mut joined_text = String::new();
    push_str(&mut joined_text, asset.file_name.as_str());
    push_str(&mut joined_text, " ");
    push_str(&mut joined_text, asset.file_path.as_str());
    let lower = to_lowercase(joined_text.as_str());
    chars_of(lower.as_str())
}

fn term_hit(hay: &Vec<char>, term: &str) -> (r: bool)
    ensures
        r == term_hits(hay@, term@),
{
    let lower = to_lowercase(term);
    let needle = chars_of(lower.as_str());
    contains_chars(hay, &needle)
}

fn reason2(prefix: &str, term: &str) -> (r: String)
    ensures
        r@ == prefix@ + term@,
{
    let mut out = String::new();
    push_str(&mut out, prefix);
    push_str(&mut out, term);
    out
}

fn reason(prefix: &str, term: &str, suffix: &str) -> (r: String)
    ensures
        r@ == prefix@ + term@ + suffix@,
{
    let mut out = String::new();
    push_str(&mut out, prefix);
    push_str(&mut out, term);
    push_str(&mut out, suffix);
    out
}

/// Explains why a keyword (or visually recalled) asset matched a request.
pub fn explain_search_result(
    asset: Asset,
    request: &SearchRequest,
    visual_fallback: Option<&str>,
) -> (r: SearchResult)
    requires
        2 * request.must@.len() + request.should@.len() + 1 <= i64::MAX,
    ensures
        r.asset == asset,
        r.match_reasons.deep_view() == explained_reasons(
            searchable_text(asset),
            match visual_fallback {
                Some(v) => Some(v@),
                None => None,
            },
            request.must.deep_view(),
            request.should.deep_view(),
        ),
        r.score == explained_score(
            searchable_text(asset),
            match visual_fallback {
                Some(v) => Some(v@),
                None => None,
            },
            request.must.deep_view(),
            request.should.deep_view(),
        ),
        r.unmet_should.deep_view() == unmet_terms(
            searchable_text(asset),
            request.should.deep_view(),
        ),
        r.matching_segment_ids@.len() == 0,
{
    let hay = searchable_of(&asset);
    let ghost h = hay@;
    let ghost must = request.must.deep_view();
    let ghost should = request.should.deep_view();
    let mut reasons: Vec<String> = Vec::new();
    let mut score: i64 = 0;
    match visual_fallback {
        Some(v) => {
            reasons.push(string_of(&chars_of(v)));
            score = 1;
        },
        None => {},
    }
    let ghost visual_part = reasons.deep_view();
    let ghost visual_score = score as int;
    assert(visual_part =~= visual_reasons(
        match visual_fallback {
            Some(v) => Some(v@),
            None => None,
        },
    ));
    proof {
        lemma_hit_count_bound(h, must);
        lemma_hit_count_bound(h, should);
    }
    let nm = request.must.len();
    for i in 0..nm
        invariant
            nm == request.must@.len(),
            must == request.must.deep_view(),
            h == hay@,
            reasons.deep_view() == visual_part + must_reasons(h, must.take(i as int)),
            score == visual_score + 2 * hit_count(h, must.take(i as int)),
            0 <= visual_score <= 1,
            hit_count(h, must.take(i as int)) <= i,
            2 * nm + request.should@.len() + 1 <= i64::MAX,
    {
        let ghost ts = must.take(i + 1);
        assert(ts.drop_last() =~= must.take(i as int));
        assert(ts.last() == request.must@[i as int]@);
        let ghost before = reasons.deep_view();
        if term_hit(&hay, request.must[i].as_str()) {
            let item = reason2("满足必须条件：", request.must[i].as_str());
            reasons.push(item);
            assert(reasons.deep_view() =~= before.push("满足必须条件："@ + ts.last()));
            score = score + 2;
        } else {
            assert(reasons.deep_view() =~= before);
        }
        assert(reasons.deep_view() =~= visual_part + must_reasons(h, ts));
    }
    assert(must.take(nm as int) =~= must);
    let ghost after_must = reasons.deep_view();
    let ghost must_score = score as int;
    let ns = request.should.len();
    let mut unmet: Vec<String> = Vec::new();
    for i in 0..ns
        invariant
            ns == request.should@.len(),
            should == request.should.deep_view(),
            h == hay@,
            reasons.deep_view() == after_must + should_reasons(h, should.take(i as int)),
            unmet.deep_view() == unmet_terms(h, should.take(i as int)),
            score == must_score + hit_count(h, should.take(i as int)),
            0 <= must_score <= 1 + 2 * request.must@.len(),
            hit_count(h, should.take(i as int)) <= i,
            2 * request.must@.len() + ns + 1 <= i64::MAX,
    {
        let ghost ts = should.take(i + 1);
        assert(ts.drop_last() =~= should.take(i as int));
        assert(ts.last() == request.should@[i as int]@);
        let ghost before = reasons.deep_view();
        if term_hit(&hay, request.should[i].as_str()) {
            let item = reason2("命中偏好条件：", request.should[i].as_str());
            reasons.push(item);
            assert(reasons.deep_view() =~= before.push("命中偏好条件："@ + ts.last()));
            score = score + 1;
        } else {
            assert(reasons.deep_view() =~= before);
            unmet.push(request.should[i].clone());
        }
        assert(reasons.deep_view() =~= after_must + should_reasons(h, ts));
        assert(unmet.deep_view() =~= unmet_terms(h, ts));
    }
    assert(should.take(ns as int) =~= should);
    if reasons.len() == 0 {
        reasons.push(string_of(&chars_of("按关键词召回")));
    }
    SearchResult {
        asset,
        score,
        match_reasons: reasons,
        unmet_should: unmet,
        matching_segment_ids: Vec::new(),
    }
}

// ---------------------------------------------------------------------------
// Confirmed ACG tags
// ---------------------------------------------------------------------------

/// A term matches a tag list when its trimmed, lower-cased form is non-empty
/// and occurs in some lower-cased tag.
pub open spec fn tag_hit(tags: Seq<Seq<char>>, term: Seq<char>) -> bool {
    let needle = lowercase(trimmed(term));
    needle.len() > 0 && exists|i: int| 0 <= i < tags.len() && has_substring(
        lowercase(#[trigger] tags[i]),
        needle,
    )
}

/// Case-insensitive match of a search term against confirmed tags.
pub fn tag_matches(acg_tags: &Vec<String>, term: &str) -> (r: bool)
    ensures
        r == tag_hit(acg_tags.deep_view(), term@),
{
    let t = trim_str(term);
    let ts = string_of(&t);
    let lower = to_lowercase(ts.as_str());
    let needle = chars_of(lower.as_str());
    if needle.len() == 0 {
        return false;
    }
    let n = acg_tags.len();
    for i in 0..n
        invariant
            n == acg_tags@.len(),
            needle@ == lowercase(trimmed(term@)),
            needle@.len() > 0,
            forall|k: int| 0 <= k < i ==> !has_substring(
                lowercase(#[trigger] acg_tags.deep_view()[k]),
                needle@,
            ),
    {
        let tag_lower = to_lowercase(acg_tags[i].as_str());
        let tag_chars = chars_of(tag_lower.as_str());
        if contains_chars(&tag_chars, &needle) {
            assert(acg_tags.deep_view()[i as int] == acg_tags@[i as int]@);
            assert(has_substring(lowercase(acg_tags.deep_view()[i as int]), needle@));
            assert(acg_tags.deep_view().len() == n);
            assert(tag_hit(acg_tags.deep_view(), term@));
            return true;
        }
        assert(acg_tags.deep_view()[i as int] == acg_tags@[i as int]@);
    }
    false
}

/// `s` without any element equal to `x` (`Vec::retain(|u| u != x)`).
pub open spec fn without(s: Seq<Seq<char>>, x: Seq<char>) -> Seq<Seq<char>>
    decreases s.len(),
{
    if s.len() == 0 {
        Seq::empty()
    } else {
        without(s.drop_last(), x) + if s.last() == x {
            Seq::empty()
        } else {
            seq![s.last()]
        }
    }
}

fn remove_all(items: &Vec<String>, x: &str) -> (r: Vec<String>)
    ensures
        r.deep_view() == without(items.deep_view(), x@),
{
    let mut out: Vec<String> = Vec::new();
    let n = items.len();
    let xc = chars_of(x);
    for i in 0..n
        invariant
            n == items@.len(),
            xc@ == x@,
            out.deep_view() == without(items.deep_view().take(i as int), x@),
    {
        let ghost ts = items.deep_view().take(i + 1);
        assert(ts.drop_last() =~= items.deep_view().take(i as int));
        assert(ts.last() == items@[i as int]@);
        let ic = chars_of(items[i].as_str());
        if !crate::text::chars_eq(&ic, &xc) {
            out.push(items[i].clone());
        }
        assert(out.deep_view() =~= without(ts, x@));
    }
    assert(items.deep_view().take(n as int) =~= items.deep_view());
    out
}

/// Must terms satisfied only through a confirmed tag.
pub open spec fn acg_must(
    e: Explanation,
    hay: Seq<char>,
    tags: Seq<Seq<char>>,
    terms: Seq<Seq<char>>,
) -> Explanation
    decreases terms.len(),
{
    if terms.len() == 0 {
        e
    } else {
        let prev = acg_must(e, hay, tags, terms.drop_last());
        let t = terms.last();
        if !term_hits(hay, t) && tag_hit(tags, t) {
            Explanation {
                reasons: prev.reasons.push("满足必须条件："@ + t + "（ACG 标签）"@),
                unmet: prev.unmet,
                score: prev.score + 2,
            }
        } else {
            prev
        }
    }
}

/// Should terms satisfied only through a confirmed tag; such a term is no
/// longer reported as unmet.
pub open spec fn acg_should(
    e: Explanation,
    hay: Seq<char>,
    tags: Seq<Seq<char>>,
    terms: Seq<Seq<char>>,
) -> Explanation
    decreases terms.len(),
{
    if terms.len() == 0 {
        e
    } else {
        let prev = acg_should(e, hay, tags, terms.drop_last());
        let t = terms.last();
        if !term_hits(hay, t) && tag_hit(tags, t) {
            Explanation {
                reasons: prev.reasons.push("命中偏好条件："@ + t + "（ACG 标签）"@),
                unmet: without(prev.unmet, t),
                score: prev.score + 1,
            }
        } else {
            prev
        }
    }
}

proof fn lemma_acg_must_score(e: Explanation, hay: Seq<char>, tags: Seq<Seq<char>>, terms: Seq<Seq<char>>)
    ensures
        e.score <= acg_must(e, hay, tags, terms).score <= e.score + 2 * terms.len(),
    decreases terms.len(),
{
    if terms.len() > 0 {
        lemma_acg_must_score(e, hay, tags, terms.drop_last());
    }
}

proof fn lemma_acg_should_score(e: Explanation, hay: Seq<char>, tags: Seq<Seq<char>>, terms: Seq<Seq<char>>)
    ensures
        e.score <= acg_should(e, hay, tags, terms).score <= e.score + terms.len(),
    decreases terms.len(),
{
    if terms.len() > 0 {
        lemma_acg_should_score(e, hay, tags, terms.drop_last());
    }
}

/// Adds the conditions that the asset satisfies only through its confirmed
/// ACG tags: two points per such Must term, one per such Should term.
pub fn apply_acg_tag_explanations(
    result: &mut SearchResult,
    request: &SearchRequest,
    acg_tags: &Vec<String>,
)
    requires
        old(result).score + 2 * request.must@.len() + request.should@.len() <= i64::MAX,
    ensures
        final(result).asset == old(result).asset,
        final(result).matching_segment_ids == old(result).matching_segment_ids,
        explanation_of(*final(result)) == acg_should(
            acg_must(
                explanation_of(*old(result)),
                searchable_text(old(result).asset),
                acg_tags.deep_view(),
                request.must.deep_view(),
            ),
            searchable_text(old(result).asset),
            acg_tags.deep_view(),
            request.should.deep_view(),
        ),
{
    let hay = searchable_of(&result.asset);
    let ghost h = hay@;
    let ghost tags = acg_tags.deep_view();
    let ghost must = request.must.deep_view();
    let ghost should = request.should.deep_view();
    let ghost start = explanation_of(*result);
    let nm = request.must.len();
    for i in 0..nm
        invariant
            nm == request.must@.len(),
            must == request.must.deep_view(),
            tags == acg_tags.deep_view(),
            h == hay@,
            h == searchable_text(result.asset),
            result.asset == old(result).asset,
            result.matching_segment_ids == old(result).matching_segment_ids,
            start == explanation_of(*old(result)),
            explanation_of(*result) == acg_must(start, h, tags, must.take(i as int)),
            start.score + 2 * nm + request.should@.len() <= i64::MAX,
    {
        let ghost ts = must.take(i + 1);
        assert(ts.drop_last() =~= must.take(i as int));
        assert(ts.last() == request.must@[i as int]@);
        proof {
            lemma_acg_must_score(start, h, tags, must.take(i as int));
        }
        let term = request.must[i].as_str();
        if !term_hit(&hay, term) && tag_matches(acg_tags, term) {
            result.match_reasons.push(reason("满足必须条件：", term, "（ACG 标签）"));
            result.score = result.score + 2;
        }
        assert(result.match_reasons.deep_view() =~= acg_must(start, h, tags, ts).reasons);
        assert(result.unmet_should.deep_view() =~= acg_must(start, h, tags, ts).unmet);
    }
    assert(must.take(nm as int) =~= must);
    let ghost mid = explanation_of(*result);
    proof {
        lemma_acg_must_score(start, h, tags, must);
    }
    let ns = request.should.len();
    for i in 0..ns
        invariant
            ns == request.should@.len(),
            should == request.should.deep_view(),
            tags == acg_tags.deep_view(),
            h == hay@,
            result.asset == old(result).asset,
            result.matching_segment_ids == old(result).matching_segment_ids,
            explanation_of(*result) == acg_should(mid, h, tags, should.take(i as int)),
            mid.score + ns <= i64::MAX,
    {
        let ghost ts = should.take(i + 1);
        assert(ts.drop_last() =~= should.take(i as int));
        assert(ts.last() == request.should@[i as int]@);
        proof {
            lemma_acg_should_score(mid, h, tags, should.take(i as int));
        }
        let term = request.should[i].as_str();
        if !term_hit(&hay, term) && tag_matches(acg_tags, term) {
            let kept = remove_all(&result.unmet_should, term);
            result.unmet_should = kept;
            result.match_reasons.push(reason("命中偏好条件：", term, "（ACG 标签）"));
            result.score = result.score + 1;
        }
        assert(result.match_reasons.deep_view() =~= acg_should(mid, h, tags, ts).reasons);
        assert(result.unmet_should.deep_view() =~= acg_should(mid, h, tags, ts).unmet);
    }
    assert(should.take(ns as int) =~= should);
}


// ---------------------------------------------------------------------------
// Library diversity among equal scores
// ---------------------------------------------------------------------------

/// Occurrences of `x` in `s`.
pub open spec fn count_in(s: Seq<Seq<char>>, x: Seq<char>) -> nat
    decreases s.len(),
{
    if s.len() == 0 {
        0
    } else {
        count_in(s.drop_last(), x) + if s.last() == x {
            1nat
        } else {
            0nat
        }
    }
}

/// Distinct library ids in order of first appearance.
pub open spec fn libraries_in_order(s: Seq<Seq<char>>) -> Seq<Seq<char>>
    decreases s.len(),
{
    if s.len() == 0 {
        Seq::empty()
    } else {
        let p = libraries_in_order(s.drop_last());
        if p.contains(s.last()) {
            p
        } else {
            p.push(s.last())
        }
    }
}

/// Position of `x` in `p` (the length when absent).
pub open spec fn position_of(p: Seq<Seq<char>>, x: Seq<char>) -> nat
    decreases p.len(),
{
    if p.len() == 0 {
        0
    } else if p[0] == x {
        0
    } else {
        1 + position_of(p.drop_first(), x)
    }
}

/// Round-robin key of entry `i`: its turn within its own library, then the
/// first-appearance rank of that library. Sorting ascending by this key
/// takes one entry from each library in turn.
pub open spec fn diversity_key(s: Seq<Seq<char>>, i: int) -> KeyView {
    KeyView {
        major: -(count_in(s.take(i), s[i]) as int),
        minor: -(position_of(libraries_in_order(s), s[i]) as int),
        text: Seq::empty(),
    }
}

pub open spec fn diversity_keys(s: Seq<Seq<char>>) -> Seq<KeyView> {
    Seq::new(s.len(), |i: int| diversity_key(s, i))
}

proof fn lemma_position_push(p: Seq<Seq<char>>, y: Seq<char>, x: Seq<char>)
    requires
        p.contains(x),
    ensures
        position_of(p.push(y), x) == position_of(p, x),
        position_of(p, x) < p.len(),
    decreases p.len(),
{
    if p[0] != x {
        let k = choose|k: int| 0 <= k < p.len() && p[k] == x;
        assert(p.drop_first()[k - 1] == x);
        assert(p.push(y).drop_first() =~= p.drop_first().push(y));
        lemma_position_push(p.drop_first(), y, x);
    }
}

proof fn lemma_position_last(p: Seq<Seq<char>>, x: Seq<char>)
    requires
        !p.contains(x),
    ensures
        position_of(p.push(x), x) == p.len(),
    decreases p.len(),
{
    if p.len() > 0 {
        assert(p.push(x).drop_first() =~= p.drop_first().push(x));
        assert(!p.drop_first().contains(x)) by {
            if p.drop_first().contains(x) {
                let k = choose|k: int| 0 <= k < p.drop_first().len() && p.drop_first()[k] == x;
                assert(p[k + 1] == x);
            }
        }
        lemma_position_last(p.drop_first(), x);
    } else {
        assert(p.push(x)[0] == x);
    }
}

proof fn lemma_libraries_prefix(s: Seq<Seq<char>>, i: int, x: Seq<char>)
    requires
        0 <= i <= s.len(),
        libraries_in_order(s.take(i)).contains(x),
    ensures
        libraries_in_order(s).contains(x),
        position_of(libraries_in_order(s), x) == position_of(libraries_in_order(s.take(i)), x),
    decreases s.len() - i,
{
    if i < s.len() {
        let t = s.take(i + 1);
        assert(t.drop_last() =~= s.take(i));
        let p = libraries_in_order(s.take(i));
        if !p.contains(t.last()) {
            lemma_position_push(p, t.last(), x);
            assert(p.push(t.last())[position_of(p, x) as int] == x) by {
                lemma_position_found(p, x);
            }
        }
        lemma_libraries_prefix(s, i + 1, x);
    } else {
        assert(s.take(i) =~= s);
    }
}

proof fn lemma_position_found(p: Seq<Seq<char>>, x: Seq<char>)
    requires
        p.contains(x),
    ensures
        position_of(p, x) < p.len(),
        p[position_of(p, x) as int] == x,
    decreases p.len(),
{
    if p[0] != x {
        let k = choose|k: int| 0 <= k < p.len() && p[k] == x;
        assert(p.drop_first()[k - 1] == x);
        lemma_position_found(p.drop_first(), x);
    }
}

/// Orders same-score candidates round-robin by library: every index once,
/// first each library's first entry (libraries in order of first
/// appearance), then each library's second entry, and so on.
pub fn diversity_order(library_ids: &Vec<String>) -> (r: Vec<usize>)
    requires
        library_ids@.len() <= i64::MAX,
    ensures
        sorted_order(diversity_keys(library_ids.deep_view()), r@),
{
    let ghost s = library_ids.deep_view();
    let n = library_ids.len();
    let mut libs: Vec<Vec<char>> = Vec::new();
    let mut keys: Vec<SortKey> = Vec::new();
    for i in 0..n
        invariant
            n == library_ids@.len() == s.len(),
            s == library_ids.deep_view(),
            n <= i64::MAX,
            libs.deep_view() == libraries_in_order(s.take(i as int)),
            libs@.len() <= i,
            keys@.len() == i,
            forall|q: int| 0 <= q < i ==> libraries_in_order(s.take(i as int)).contains(#[trigger] s[q]),
            forall|q: int|
                0 <= q < i ==> (#[trigger] keys@[q]).deep_view() == (KeyView {
                    major: -(count_in(s.take(q), s[q]) as int),
                    minor: -(position_of(libraries_in_order(s.take(i as int)), s[q]) as int),
                    text: Seq::empty(),
                }),
    {
        let c = chars_of(library_ids[i].as_str());
        assert(c@ == s[i as int]);
        let mut count: usize = 0;
        for j in 0..i
            invariant
                n == library_ids@.len() == s.len(),
                s == library_ids.deep_view(),
                i < n,
                c@ == s[i as int],
                count <= j,
                count == count_in(s.take(i as int).take(j as int), s[i as int]),
        {
            let d = chars_of(library_ids[j].as_str());
            assert(s.take(i as int).take(j + 1).drop_last() =~= s.take(i as int).take(j as int));
            if crate::text::chars_eq(&d, &c) {
                count = count + 1;
            }
        }
        assert(s.take(i as int).take(i as int) =~= s.take(i as int));
        let mut p: usize = 0;
        while p < libs.len() && !crate::text::chars_eq(&libs[p], &c)
            invariant
                p <= libs@.len(),
                c@ == s[i as int],
                forall|k: int| 0 <= k < p ==> libs.deep_view()[k] != c@,
            decreases libs@.len() - p,
        {
            assert(libs.deep_view()[p as int] == libs@[p as int]@);
            p = p + 1;
        }
        let ghost prev_libs = libraries_in_order(s.take(i as int));
        let ghost next_libs = libraries_in_order(s.take(i + 1));
        assert(s.take(i + 1).drop_last() =~= s.take(i as int));
        assert(s.take(i + 1).last() == s[i as int]);
        if p == libs.len() {
            assert(!prev_libs.contains(c@)) by {
                if prev_libs.contains(c@) {
                    let k = choose|k: int| 0 <= k < prev_libs.len() && prev_libs[k] == c@;
                    assert(libs.deep_view()[k] == c@);
                }
            }
            proof {
                lemma_position_last(prev_libs, c@);
            }
            let ghost cv = c@;
            let ghost before = libs.deep_view();
            libs.push(c);
            assert(libs@[libs@.len() - 1].deep_view() =~= cv);
            assert(libs.deep_view() =~= before.push(cv));
            assert(libs.deep_view() =~= next_libs);
        } else {
            proof {
                assert(libs.deep_view()[p as int] == libs@[p as int]@);
                assert(prev_libs[p as int] == c@);
                assert(prev_libs.contains(c@));
                assert forall|k: int| 0 <= k < p implies prev_libs[k] != c@ by {}
                lemma_position_found(prev_libs, c@);
                lemma_position_first(prev_libs, c@, p as int);
            }
        }
        proof {
            assert forall|q: int| 0 <= q < i implies position_of(next_libs, #[trigger] s[q]) == position_of(prev_libs, s[q]) by {
                if !prev_libs.contains(c@) {
                    lemma_position_push(prev_libs, c@, s[q]);
                }
            }
            assert forall|q: int| 0 <= q < i + 1 implies next_libs.contains(#[trigger] s[q]) by {
                if q < i {
                    if !prev_libs.contains(c@) {
                        assert(prev_libs.contains(s[q]));
                        let k = choose|k: int| 0 <= k < prev_libs.len() && prev_libs[k] == s[q];
                        assert(next_libs[k] == s[q]);
                    }
                } else {
                    if !prev_libs.contains(c@) {
                        assert(next_libs[prev_libs.len() as int] == c@);
                    }
                }
            }
            assert(position_of(next_libs, c@) == p) by {
                if !prev_libs.contains(c@) {
                    lemma_position_last(prev_libs, c@);
                }
            }
        }
        let neg_count: i64 = -(count as i64);
        let neg_pos: i64 = -(p as i64);
        keys.push(SortKey { major: neg_count, minor: neg_pos, text: Vec::new() });
        assert(keys@[i as int].deep_view().text =~= Seq::<char>::empty());
    }
    assert(s.take(n as int) =~= s);
    let order = sort_order(&keys);
    assert(keys.deep_view() =~= diversity_keys(s)) by {
        assert forall|q: int| 0 <= q < n implies #[trigger] keys.deep_view()[q] == diversity_key(s, q) by {
            assert(keys@[q].deep_view().text =~= Seq::<char>::empty());
        }
    }
    order
}

proof fn lemma_position_first(p: Seq<Seq<char>>, x: Seq<char>, k: int)
    requires
        0 <= k < p.len(),
        p[k] == x,
        forall|j: int| 0 <= j < k ==> p[j] != x,
    ensures
        position_of(p, x) == k,
    decreases k,
{
    if k > 0 {
        lemma_position_first(p.drop_first(), x, k - 1);
    }
}


pub open spec fn scores_of(rs: Seq<SearchResult>) -> Seq<i64> {
    rs.map_values(|r: SearchResult| r.score)
}

pub open spec fn libraries_of(rs: Seq<SearchResult>) -> Seq<Seq<char>> {
    rs.map_values(|r: SearchResult| r.asset.library_id@)
}

/// `[a, b)` is a maximal run of equal scores.
pub open spec fn score_run(s: Seq<i64>, a: int, b: int) -> bool {
    &&& 0 <= a < b <= s.len()
    &&& forall|k: int| a <= k < b ==> #[trigger] s[k] == s[a]
    &&& (a == 0 || s[a - 1] != s[a])
    &&& (b == s.len() || s[b] != s[a])
}

/// A group is announced as rotated when it really was reordered across at
/// least two libraries.
pub open spec fn group_rotated(ids: Seq<Seq<char>>, local: Seq<usize>) -> bool {
    local.len() > 1 && libraries_in_order(ids).len() > 1 && local != Seq::new(
        local.len(),
        |k: int| k as usize,
    )
}

/// The order of run `[a, b)` relative to its start.
pub open spec fn local_order(o: Seq<usize>, a: int, b: int) -> Seq<usize> {
    Seq::new((b - a) as nat, |k: int| (o[a + k] - a) as usize)
}

/// Within every maximal run of equal scores, `o` orders the run round-robin
/// by library, and `f` marks the positions of runs that were rotated.
pub open spec fn diversify_plan(s: Seq<SearchResult>, o: Seq<usize>, f: Seq<bool>) -> bool {
    &&& is_permutation(o, s.len())
    &&& f.len() == s.len()
    &&& forall|a: int, b: int|
        #[trigger] score_run(scores_of(s), a, b) ==> {
            &&& forall|k: int| a <= k < b ==> a <= #[trigger] o[k] < b
            &&& sorted_order(
                diversity_keys(libraries_of(s).subrange(a, b)),
                local_order(o, a, b),
            )
            &&& forall|k: int|
                a <= k < b ==> #[trigger] f[k] == group_rotated(
                    libraries_of(s).subrange(a, b),
                    local_order(o, a, b),
                )
        }
}

pub open spec fn rotation_note() -> Seq<char> {
    "同分候选按素材库轮换，保留结果多样性"@
}

/// `x` is `y`, with the rotation note appended to its reasons when `note`.
pub open spec fn carries(x: SearchResult, y: SearchResult, note: bool) -> bool {
    &&& x.asset == y.asset
    &&& x.score == y.score
    &&& x.unmet_should == y.unmet_should
    &&& x.matching_segment_ids == y.matching_segment_ids
    &&& x.match_reasons.deep_view() == y.match_reasons.deep_view() + if note {
        seq![rotation_note()]
    } else {
        Seq::empty()
    }
}

proof fn lemma_runs_agree(s: Seq<i64>, a: int, b: int, c: int, d: int)
    requires
        score_run(s, a, b),
        score_run(s, c, d),
        a < d,
        c < b,
    ensures
        a == c && b == d,
{
    if a < c {
        assert(s[c - 1] == s[a] && s[c] == s[a]);
    }
    if c < a {
        assert(s[a - 1] == s[c] && s[a] == s[c]);
    }
    if b < d {
        assert(s[b] == s[c] && s[b - 1] == s[c]);
    }
    if d < b {
        assert(s[d] == s[a] && s[d - 1] == s[a]);
    }
}

proof fn lemma_two_libraries(ids: Seq<Seq<char>>)
    requires
        ids.len() > 0,
    ensures
        libraries_in_order(ids).len() > 1 <==> exists|k: int| 0 <= k < ids.len() && #[trigger] ids[k]
            != ids[0],
        libraries_in_order(ids).len() >= 1,
        libraries_in_order(ids)[0] == ids[0],
    decreases ids.len(),
{
    if ids.len() == 1 {
        assert(ids.drop_last() =~= Seq::<Seq<char>>::empty());
        assert(libraries_in_order(ids.drop_last()) == Seq::<Seq<char>>::empty());
        assert(!Seq::<Seq<char>>::empty().contains(ids.last()));
        assert(ids.last() == ids[0]);
        assert(libraries_in_order(ids) =~= seq![ids[0]]);
    } else {
        let t = ids.drop_last();
        lemma_two_libraries(t);
        let p = libraries_in_order(t);
        if exists|k: int| 0 <= k < t.len() && #[trigger] t[k] != t[0] {
            let k = choose|k: int| 0 <= k < t.len() && #[trigger] t[k] != t[0];
            assert(ids[k] != ids[0]);
        }
        if exists|k: int| 0 <= k < ids.len() && #[trigger] ids[k] != ids[0] {
            let k = choose|k: int| 0 <= k < ids.len() && #[trigger] ids[k] != ids[0];
            if k < t.len() {
                assert(t[k] != t[0]);
            } else {
                if p.len() == 1 {
                    assert(!p.contains(ids.last())) by {
                        if p.contains(ids.last()) {
                            let j = choose|j: int| 0 <= j < p.len() && p[j] == ids.last();
                            assert(j == 0);
                        }
                    }
                }
            }
        } else {
            if p.len() == 1 {
                assert(p[0] == ids.last());
                assert(p.contains(ids.last()));
            }
        }
    }
}

fn run_end(sorted: &Vec<SearchResult>, offset: usize) -> (end: usize)
    requires
        offset < sorted@.len(),
    ensures
        offset < end <= sorted@.len(),
        forall|k: int| offset <= k < end ==> #[trigger] sorted@[k].score == sorted@[offset as int].score,
        end == sorted@.len() || sorted@[end as int].score != sorted@[offset as int].score,
{
    let n = sorted.len();
    let score = sorted[offset].score;
    let mut end = offset + 1;
    while end < n && sorted[end].score == score
        invariant
            n == sorted@.len(),
            offset < end <= n,
            score == sorted@[offset as int].score,
            forall|k: int| offset <= k < end ==> #[trigger] sorted@[k].score == score,
        decreases n - end,
    {
        end = end + 1;
    }
    end
}

fn is_identity(order: &Vec<usize>) -> (r: bool)
    ensures
        r == (order@ == Seq::new(order@.len(), |k: int| k as usize)),
{
    let n = order.len();
    for k in 0..n
        invariant
            n == order@.len(),
            forall|q: int| 0 <= q < k ==> order@[q] == q,
    {
        if order[k] != k {
            assert(order@[k as int] != Seq::new(order@.len(), |q: int| q as usize)[k as int]);
            return false;
        }
    }
    assert(order@ =~= Seq::new(order@.len(), |k: int| k as usize));
    true
}

fn has_other_library(ids: &Vec<String>) -> (r: bool)
    requires
        ids@.len() > 0,
    ensures
        r == (libraries_in_order(ids.deep_view()).len() > 1),
{
    proof {
        lemma_two_libraries(ids.deep_view());
    }
    let first = chars_of(ids[0].as_str());
    let n = ids.len();
    for k in 0..n
        invariant
            n == ids@.len(),
            n > 0,
            first@ == ids.deep_view()[0],
            forall|q: int| 0 <= q < k ==> #[trigger] ids.deep_view()[q] == ids.deep_view()[0],
    {
        let c = chars_of(ids[k].as_str());
        if !crate::text::chars_eq(&c, &first) {
            assert(ids.deep_view()[k as int] != ids.deep_view()[0]);
            assert(ids.deep_view().len() == n);
            proof {
                lemma_two_libraries(ids.deep_view());
            }
            return true;
        }
    }
    false
}

/// Keeps the ranking tiers intact while interleaving tied candidates by
/// library: inside each maximal run of equal scores the results follow the
/// round-robin library order, and every result of a run that this actually
/// reordered across libraries gains a note saying so.
pub fn diversify_equal_score_results(sorted: Vec<SearchResult>) -> (r: Vec<SearchResult>)
    requires
        sorted@.len() <= i64::MAX,
    ensures
        r@.len() == sorted@.len(),
        exists|o: Seq<usize>, f: Seq<bool>|
            {
                &&& diversify_plan(sorted@, o, f)
                &&& forall|k: int|
                    0 <= k < r@.len() ==> carries(#[trigger] r@[k], sorted@[o[k] as int], f[k])
            },
{
    let n = sorted.len();
    let ghost s = sorted@;
    let ghost sc = scores_of(s);
    let ghost libs = libraries_of(s);
    let mut order: Vec<usize> = Vec::new();
    let mut flags: Vec<bool> = Vec::new();
    let mut offset: usize = 0;
    while offset < n
        invariant
            n == s.len() == sorted@.len(),
            s == sorted@,
            sc == scores_of(s),
            libs == libraries_of(s),
            n <= i64::MAX,
            offset <= n,
            order@.len() == offset,
            flags@.len() == offset,
            offset == 0 || offset == n || sc[offset - 1] != sc[offset as int],
            is_permutation(order@, offset as nat),
            forall|a: int, b: int|
                #[trigger] score_run(sc, a, b) && b <= offset ==> {
                    &&& forall|k: int| a <= k < b ==> a <= #[trigger] order@[k] < b
                    &&& sorted_order(
                        diversity_keys(libs.subrange(a, b)),
                        local_order(order@, a, b),
                    )
                    &&& forall|k: int|
                        a <= k < b ==> #[trigger] flags@[k] == group_rotated(
                            libs.subrange(a, b),
                            local_order(order@, a, b),
                        )
                },
        decreases n - offset,
    {
        let end = run_end(&sorted, offset);
        let ghost a = offset as int;
        let ghost b = end as int;
        assert(score_run(sc, a, b)) by {
            assert forall|k: int| a <= k < b implies #[trigger] sc[k] == sc[a] by {
                assert(sorted@[k].score == sorted@[a].score);
            }
        }
        let mut ids: Vec<String> = Vec::new();
        for k in offset..end
            invariant
                n == s.len() == sorted@.len(),
                s == sorted@,
                libs == libraries_of(s),
                offset <= k <= end <= n,
                ids.deep_view() == libs.subrange(offset as int, k as int),
        {
            let id = sorted[k].asset.library_id.clone();
            let ghost before = ids.deep_view();
            ids.push(id);
            assert(ids.deep_view() =~= before.push(libs[k as int]));
            assert(libs.subrange(offset as int, k + 1) =~= libs.subrange(offset as int, k as int).push(libs[k as int]));
        }
        let local = diversity_order(&ids);
        let ghost ids_view = ids.deep_view();
        proof {
            lemma_sorted_is_permutation(diversity_keys(ids_view), local@);
        }
        let two = has_other_library(&ids);
        let identity = is_identity(&local);
        let flag = local.len() > 1 && two && !identity;
        let m = local.len();
        let ghost prev_order = order@;
        let ghost prev_flags = flags@;
        for k in 0..m
            invariant
                m == local@.len() == end - offset,
                is_permutation(local@, m as nat),
                offset < end <= n,
                order@.len() == offset + k,
                flags@.len() == offset + k,
                order@.subrange(0, offset as int) == prev_order,
                flags@.subrange(0, offset as int) == prev_flags,
                forall|q: int| 0 <= q < k ==> #[trigger] order@[offset + q] == offset + local@[q],
                forall|q: int| 0 <= q < k ==> #[trigger] flags@[offset + q] == flag,
        {
            order.push(offset + local[k]);
            flags.push(flag);
            assert(order@.subrange(0, offset as int) =~= prev_order);
            assert(flags@.subrange(0, offset as int) =~= prev_flags);
        }
        proof {
            assert(local_order(order@, a, b) =~= local@);
            assert forall|k: int| 0 <= k < offset implies #[trigger] order@[k] == prev_order[k] by {
                assert(order@.subrange(0, offset as int)[k] == order@[k]);
            }
            assert forall|k: int| 0 <= k < offset implies #[trigger] flags@[k] == prev_flags[k] by {
                assert(flags@.subrange(0, offset as int)[k] == flags@[k]);
            }
            assert forall|k: int| a <= k < b implies a <= #[trigger] order@[k] < b by {
                assert(order@[a + (k - a)] == offset + local@[k - a]);
            }
            assert forall|x: int, y: int| 0 <= x < y < order@.len() implies #[trigger] order@[x] != #[trigger] order@[y] by {
                if y < a {
                } else if x >= a {
                    assert(order@[a + (x - a)] == offset + local@[x - a]);
                    assert(order@[a + (y - a)] == offset + local@[y - a]);
                } else {
                    assert(order@[a + (y - a)] == offset + local@[y - a]);
                }
            }
            assert forall|x: int| 0 <= x < order@.len() implies #[trigger] order@[x] < end by {
                if x >= a {
                    assert(order@[a + (x - a)] == offset + local@[x - a]);
                }
            }
            assert(group_rotated(libs.subrange(a, b), local_order(order@, a, b)) == flag) by {
                assert(ids_view == libs.subrange(a, b));
            }
            assert forall|c: int, d: int|
                #[trigger] score_run(sc, c, d) && d <= end implies {
                    &&& forall|k: int| c <= k < d ==> c <= #[trigger] order@[k] < d
                    &&& sorted_order(
                        diversity_keys(libs.subrange(c, d)),
                        local_order(order@, c, d),
                    )
                    &&& forall|k: int|
                        c <= k < d ==> #[trigger] flags@[k] == group_rotated(
                            libs.subrange(c, d),
                            local_order(order@, c, d),
                        )
                } by {
                if d <= offset {
                    assert(local_order(order@, c, d) =~= local_order(prev_order, c, d));
                } else {
                    if c < a {
                        assert(sc[a - 1] == sc[c] && sc[a] == sc[c]);
                    }
                    lemma_runs_agree(sc, a, b, c, d);
                    assert forall|k: int| c <= k < d implies #[trigger] flags@[k] == flag by {
                        assert(flags@[a + (k - a)] == flag);
                    }
                }
            }
        }
        offset = end;
    }
    let out = permute(sorted, &order);
    let ghost o = order@;
    let ghost f = flags@;
    let mut reversed: Vec<SearchResult> = Vec::new();
    let mut rest = out;
    while rest.len() > 0
        invariant
            rest@.len() + reversed@.len() == n,
            n == o.len() == f.len() == flags@.len(),
            f == flags@,
            forall|k: int| 0 <= k < rest@.len() ==> #[trigger] rest@[k] == s[o[k] as int],
            forall|j: int|
                0 <= j < reversed@.len() ==> carries(#[trigger] reversed@[j], s[o[n - 1 - j] as int], f[n - 1 - j]),
        decreases rest@.len(),
    {
        let k = rest.len() - 1;
        let ghost xv = rest@[k as int];
        assert(xv == s[o[k as int] as int]);
        let mut x = rest.pop().unwrap();
        assert(x == xv);
        if flags[k] {
            let ghost before = x.match_reasons.deep_view();
            x.match_reasons.push(string_of(&chars_of("同分候选按素材库轮换，保留结果多样性")));
            assert(x.match_reasons.deep_view() =~= before.push(rotation_note()));
        } else {
            assert(x.match_reasons.deep_view() =~= x.match_reasons.deep_view() + Seq::<Seq<char>>::empty());
        }
        assert(carries(x, s[o[k as int] as int], f[k as int]));
        let ghost before = reversed@;
        reversed.push(x);
        assert(reversed@[before.len() as int] == x);
        assert(n - 1 - before.len() == k);
    }
    let mut result: Vec<SearchResult> = Vec::new();
    while reversed.len() > 0
        invariant
            reversed@.len() + result@.len() == n,
            n == o.len() == f.len(),
            forall|j: int|
                0 <= j < reversed@.len() ==> carries(#[trigger] reversed@[j], s[o[n - 1 - j] as int], f[n - 1 - j]),
            forall|k: int| 0 <= k < result@.len() ==> carries(#[trigger] result@[k], s[o[k] as int], f[k]),
        decreases reversed@.len(),
    {
        let x = reversed.pop().unwrap();
        result.push(x);
    }
    assert(diversify_plan(s, o, f));
    result
}


/// First index of the run of equal scores that holds `k`.
pub open spec fn tier_start(s: Seq<i64>, k: int) -> int
    decreases k,
{
    if k <= 0 || s[k - 1] != s[k] { k } else { tier_start(s, k - 1) }
}

/// One past the last index of the run of equal scores that holds `k`.
pub open spec fn tier_end(s: Seq<i64>, k: int) -> int
    decreases s.len() - k,
{
    if k + 1 >= s.len() || s[k + 1] != s[k] { k + 1 } else { tier_end(s, k + 1) }
}

proof fn lemma_run_start(s: Seq<i64>, k: int)
    requires
        0 <= k < s.len(),
    ensures
        0 <= tier_start(s, k) <= k,
        tier_start(s, k) == 0 || s[tier_start(s, k) - 1] != s[k],
        forall|j: int| tier_start(s, k) <= j <= k ==> #[trigger] s[j] == s[k],
    decreases k,
{
    if !(k <= 0 || s[k - 1] != s[k]) {
        lemma_run_start(s, k - 1);
    }
}

proof fn lemma_run_end(s: Seq<i64>, k: int)
    requires
        0 <= k < s.len(),
    ensures
        k < tier_end(s, k) <= s.len(),
        tier_end(s, k) == s.len() || s[tier_end(s, k)] != s[k],
        forall|j: int| k <= j < tier_end(s, k) ==> #[trigger] s[j] == s[k],
    decreases s.len() - k,
{
    if !(k + 1 >= s.len() || s[k + 1] != s[k]) {
        lemma_run_end(s, k + 1);
    }
}

/// Diversifying never changes which score stands at a position: scores stay
/// strict priority tiers, only equal-score results trade places.
pub proof fn law_diversify_keeps_score_tiers(
    sorted: Seq<SearchResult>,
    o: Seq<usize>,
    f: Seq<bool>,
    out: Seq<SearchResult>,
)
    requires
        diversify_plan(sorted, o, f),
        out.len() == sorted.len(),
        forall|k: int| 0 <= k < out.len() ==> carries(#[trigger] out[k], sorted[o[k] as int], f[k]),
    ensures
        forall|k: int| 0 <= k < out.len() ==> (#[trigger] out[k]).score == sorted[k].score,
{
    let s = scores_of(sorted);
    assert forall|k: int| 0 <= k < out.len() implies (#[trigger] out[k]).score == sorted[k].score by {
        lemma_run_start(s, k);
        lemma_run_end(s, k);
        let a = tier_start(s, k);
        let b = tier_end(s, k);
        assert(s[a] == s[k]);
        assert forall|j: int| a <= j < b implies #[trigger] s[j] == s[a] by {
            if j <= k {
            } else {
            }
        }
        assert(score_run(s, a, b));
        assert(a <= o[k] < b);
        assert(s[o[k] as int] == s[k]);
    }
}

// ---------------------------------------------------------------------------
// Structured segment labels
// ---------------------------------------------------------------------------

/// The label a term names, when some segment of the asset carries it.
pub open spec fn label_match(term: Seq<char>, flags: Seq<SegmentFlags>) -> Option<SegmentLabel> {
    match label_for_term(term) {
        Some(l) => if exists|i: int| 0 <= i < flags.len() && l.flagged(#[trigger] flags[i]) {
            Some(l)
        } else {
            None
        },
        None => None,
    }
}

/// Finds the structured label named by `term` when one of the segments carries it.
pub fn matching_segment_label(term: &str, segments: &Vec<SegmentFlags>) -> (r: Option<SegmentLabel>)
    ensures
        r == label_match(term@, segments@),
{
    match segment_label_for_term(term) {
        Some(label) => {
            let n = segments.len();
            for i in 0..n
                invariant
                    n == segments@.len(),
                    label_for_term(term@) == Some(label),
                    forall|k: int| 0 <= k < i ==> !label.flagged(#[trigger] segments@[k]),
            {
                if label.matches_flags(&segments[i]) {
                    assert(label.flagged(segments@[i as int]));
                    return Some(label);
                }
            }
            None
        },
        None => None,
    }
}

pub open spec fn segment_must(e: Explanation, flags: Seq<SegmentFlags>, terms: Seq<Seq<char>>) -> Explanation
    decreases terms.len(),
{
    if terms.len() == 0 {
        e
    } else {
        let prev = segment_must(e, flags, terms.drop_last());
        let t = terms.last();
        match label_match(t, flags) {
            Some(l) => Explanation {
                reasons: prev.reasons.push("满足必须条件："@ + t + "（"@ + l.explanation_text() + "）"@),
                unmet: prev.unmet,
                score: prev.score + 2,
            },
            None => prev,
        }
    }
}

pub open spec fn segment_should(e: Explanation, flags: Seq<SegmentFlags>, terms: Seq<Seq<char>>) -> Explanation
    decreases terms.len(),
{
    if terms.len() == 0 {
        e
    } else {
        let prev = segment_should(e, flags, terms.drop_last());
        let t = terms.last();
        match label_match(t, flags) {
            Some(l) => Explanation {
                reasons: prev.reasons.push("命中偏好条件："@ + t + "（"@ + l.explanation_text() + "）"@),
                unmet: without(prev.unmet, t),
                score: prev.score + 1,
            },
            None => prev,
        }
    }
}

proof fn lemma_segment_must_score(e: Explanation, flags: Seq<SegmentFlags>, terms: Seq<Seq<char>>)
    ensures
        e.score <= segment_must(e, flags, terms).score <= e.score + 2 * terms.len(),
    decreases terms.len(),
{
    if terms.len() > 0 {
        lemma_segment_must_score(e, flags, terms.drop_last());
    }
}

proof fn lemma_segment_should_score(e: Explanation, flags: Seq<SegmentFlags>, terms: Seq<Seq<char>>)
    ensures
        e.score <= segment_should(e, flags, terms).score <= e.score + terms.len(),
    decreases terms.len(),
{
    if terms.len() > 0 {
        lemma_segment_should_score(e, flags, terms.drop_last());
    }
}

fn label_reason(prefix: &str, term: &str, label: SegmentLabel) -> (r: String)
    ensures
        r@ == prefix@ + term@ + "（"@ + label.explanation_text() + "）"@,
{
    let mut out = String::new();
    push_str(&mut out, prefix);
    push_str(&mut out, term);
    push_str(&mut out, "（");
    push_str(&mut out, label.explanation());
    push_str(&mut out, "）");
    out
}

/// Adds the structured conditions that some segment of the asset satisfies:
/// two points per such Must term, one per such Should term (which is then no
/// longer reported as unmet).
pub fn apply_segment_label_explanations(
    result: &mut SearchResult,
    request: &SearchRequest,
    segments: &Vec<SegmentFlags>,
)
    requires
        old(result).score + 2 * request.must@.len() + request.should@.len() <= i64::MAX,
    ensures
        final(result).asset == old(result).asset,
        final(result).matching_segment_ids == old(result).matching_segment_ids,
        explanation_of(*final(result)) == segment_should(
            segment_must(explanation_of(*old(result)), segments@, request.must.deep_view()),
            segments@,
            request.should.deep_view(),
        ),
{
    let ghost must = request.must.deep_view();
    let ghost should = request.should.deep_view();
    let ghost start = explanation_of(*result);
    let nm = request.must.len();
    for i in 0..nm
        invariant
            nm == request.must@.len(),
            must == request.must.deep_view(),
            result.asset == old(result).asset,
            result.matching_segment_ids == old(result).matching_segment_ids,
            start == explanation_of(*old(result)),
            explanation_of(*result) == segment_must(start, segments@, must.take(i as int)),
            start.score + 2 * nm + request.should@.len() <= i64::MAX,
    {
        let ghost ts = must.take(i + 1);
        assert(ts.drop_last() =~= must.take(i as int));
        assert(ts.last() == request.must@[i as int]@);
        proof {
            lemma_segment_must_score(start, segments@, must.take(i as int));
        }
        let term = request.must[i].as_str();
        if let Some(label) = matching_segment_label(term, segments) {
            result.match_reasons.push(label_reason("满足必须条件：", term, label));
            result.score = result.score + 2;
        }
        assert(result.match_reasons.deep_view() =~= segment_must(start, segments@, ts).reasons);
        assert(result.unmet_should.deep_view() =~= segment_must(start, segments@, ts).unmet);
    }
    assert(must.take(nm as int) =~= must);
    let ghost mid = explanation_of(*result);
    proof {
        lemma_segment_must_score(start, segments@, must);
    }
    let ns = request.should.len();
    for i in 0..ns
        invariant
            ns == request.should@.len(),
            should == request.should.deep_view(),
            result.asset == old(result).asset,
            result.matching_segment_ids == old(result).matching_segment_ids,
            explanation_of(*result) == segment_should(mid, segments@, should.take(i as int)),
            mid.score + ns <= i64::MAX,
    {
        let ghost ts = should.take(i + 1);
        assert(ts.drop_last() =~= should.take(i as int));
        assert(ts.last() == request.should@[i as int]@);
        proof {
            lemma_segment_should_score(mid, segments@, should.take(i as int));
        }
        let term = request.should[i].as_str();
        if let Some(label) = matching_segment_label(term, segments) {
            let kept = remove_all(&result.unmet_should, term);
            result.unmet_should = kept;
            result.match_reasons.push(label_reason("命中偏好条件：", term, label));
            result.score = result.score + 1;
        }
        assert(result.match_reasons.deep_view() =~= segment_should(mid, segments@, ts).reasons);
        assert(result.unmet_should.deep_view() =~= segment_should(mid, segments@, ts).unmet);
    }
    assert(should.take(ns as int) =~= should);
}

// ---------------------------------------------------------------------------
// Entity hits
// ---------------------------------------------------------------------------

/// Strictly increasing in lexicographic order (hence without repeats).
pub open spec fn strictly_sorted(s: Seq<Seq<char>>) -> bool {
    forall|i: int, j: int| 0 <= i < j < s.len() ==> crate::text::seq_less(#[trigger] s[i], #[trigger] s[j])
}

/// A strictly sorted list is determined by the set of its elements: two of
/// them with the same elements are equal.
pub proof fn law_strictly_sorted_is_determined_by_its_set(a: Seq<Seq<char>>, b: Seq<Seq<char>>)
    requires
        strictly_sorted(a),
        strictly_sorted(b),
        a.to_set() == b.to_set(),
    ensures
        a == b,
    decreases a.len(),
{
    if a.len() == 0 {
        if b.len() > 0 {
            assert(b.to_set().contains(b[0]));
        }
        assert(b.len() == 0);
    } else {
        assert(a.to_set().contains(a[0]));
        assert(b.to_set().contains(a[0]));
        let j = choose|j: int| 0 <= j < b.len() && b[j] == a[0];
        assert(b.len() > 0);
        assert(b.to_set().contains(b[0]));
        assert(a.to_set().contains(b[0]));
        let i = choose|i: int| 0 <= i < a.len() && a[i] == b[0];
        if j > 0 {
            assert(crate::text::seq_less(b[0], b[j]));
            if i > 0 {
                assert(crate::text::seq_less(a[0], a[i]));
                crate::text::lemma_seq_less_asymmetric(a[0], b[0]);
            } else {
                crate::text::lemma_seq_less_irreflexive(a[0]);
            }
            assert(false);
        }
        assert(a[0] == b[0]);
        let a1 = a.drop_first();
        let b1 = b.drop_first();
        assert forall|x: int, y: int| 0 <= x < y < a1.len() implies crate::text::seq_less(#[trigger] a1[x], #[trigger] a1[y]) by {
            assert(a1[x] == a[x + 1] && a1[y] == a[y + 1]);
        }
        assert forall|x: int, y: int| 0 <= x < y < b1.len() implies crate::text::seq_less(#[trigger] b1[x], #[trigger] b1[y]) by {
            assert(b1[x] == b[x + 1] && b1[y] == b[y + 1]);
        }
        assert(a1.to_set() =~= b1.to_set()) by {
            assert forall|e: Seq<char>| a1.to_set().contains(e) implies b1.to_set().contains(e) by {
                let x = choose|x: int| 0 <= x < a1.len() && a1[x] == e;
                assert(a.to_set().contains(e) && a[x + 1] == e);
                let y = choose|y: int| 0 <= y < b.len() && b[y] == e;
                if y == 0 {
                    assert(crate::text::seq_less(a[0], a[x + 1]));
                    crate::text::lemma_seq_less_irreflexive(e);
                    assert(false);
                }
                assert(b1[y - 1] == e);
            }
            assert forall|e: Seq<char>| b1.to_set().contains(e) implies a1.to_set().contains(e) by {
                let y = choose|y: int| 0 <= y < b1.len() && b1[y] == e;
                assert(b.to_set().contains(e) && b[y + 1] == e);
                let x = choose|x: int| 0 <= x < a.len() && a[x] == e;
                if x == 0 {
                    assert(crate::text::seq_less(b[0], b[y + 1]));
                    crate::text::lemma_seq_less_irreflexive(e);
                    assert(false);
                }
                assert(a1[x - 1] == e);
            }
        }
        law_strictly_sorted_is_determined_by_its_set(a1, b1);
        assert(a =~= seq![a[0]] + a1);
        assert(b =~= seq![b[0]] + b1);
    }
}

/// The entity names, sorted and without repeats.
pub fn sorted_unique_names(names: &Vec<String>) -> (r: Vec<String>)
    ensures
        strictly_sorted(r.deep_view()),
        r.deep_view().to_set() == names.deep_view().to_set(),
{
    let mut out: Vec<String> = Vec::new();
    let n = names.len();
    for i in 0..n
        invariant
            n == names@.len(),
            strictly_sorted(out.deep_view()),
            out.deep_view().to_set() == names.deep_view().take(i as int).to_set(),
    {
        let c = chars_of(names[i].as_str());
        let mut p: usize = 0;
        let mut found = false;
        while p < out.len()
            invariant_except_break
                !found,
            invariant
                p <= out@.len(),
                strictly_sorted(out.deep_view()),
                c@ == names.deep_view()[i as int],
                forall|k: int| 0 <= k < p ==> crate::text::seq_less(#[trigger] out.deep_view()[k], c@),
            ensures
                p <= out@.len(),
                found ==> p < out@.len() && out.deep_view()[p as int] == c@,
                !found ==> p == out@.len() || crate::text::seq_less(c@, out.deep_view()[p as int]),
                forall|k: int| 0 <= k < p ==> crate::text::seq_less(#[trigger] out.deep_view()[k], c@),
            decreases out@.len() - p,
        {
            let d = chars_of(out[p].as_str());
            assert(d@ == out.deep_view()[p as int]);
            if crate::text::chars_eq(&d, &c) {
                found = true;
                break;
            }
            if crate::text::chars_less(&c, &d) {
                break;
            }
            proof {
                crate::text::lemma_seq_less_total(d@, c@);
            }
            p = p + 1;
        }
        let ghost prev = out.deep_view();
        let ghost x = names.deep_view()[i as int];
        assert(x == c@);
        assert(names.deep_view().take(i + 1) =~= names.deep_view().take(i as int).push(x));
        if !found {
            proof {
                if p < prev.len() {
                    assert(crate::text::seq_less(c@, prev[p as int]));
                }
            }
            out.insert(p, names[i].clone());
            assert(out.deep_view() =~= prev.insert(p as int, x));
            proof {
                let s2 = out.deep_view();
                assert forall|a: int, b: int| 0 <= a < b < s2.len() implies crate::text::seq_less(#[trigger] s2[a], #[trigger] s2[b]) by {
                    if b < p {
                    } else if b == p {
                    } else if a < p {
                        assert(s2[b] == prev[b - 1]);
                        if b - 1 > p {
                            crate::text::lemma_seq_less_transitive(x, prev[p as int], prev[b - 1]);
                        }
                        crate::text::lemma_seq_less_transitive(s2[a], x, s2[b]);
                    } else if a == p {
                        assert(s2[b] == prev[b - 1]);
                        if b - 1 > p {
                            crate::text::lemma_seq_less_transitive(x, prev[p as int], prev[b - 1]);
                        }
                    } else {
                        assert(s2[a] == prev[a - 1] && s2[b] == prev[b - 1]);
                    }
                }
                vstd::seq_lib::to_multiset_insert(prev, p as int, x);
                assert(s2.to_set() =~= prev.to_set().insert(x)) by {
                    assert forall|y: Seq<char>| s2.to_set().contains(y) <==> prev.to_set().insert(x).contains(y) by {
                        if s2.contains(y) {
                            let k = choose|k: int| 0 <= k < s2.len() && s2[k] == y;
                            if k < p {
                                assert(prev[k] == y);
                            } else if k > p {
                                assert(prev[k - 1] == y);
                            }
                        }
                        if prev.contains(y) {
                            let k = choose|k: int| 0 <= k < prev.len() && prev[k] == y;
                            if k < p {
                                assert(s2[k] == y);
                            } else {
                                assert(s2[k + 1] == y);
                            }
                        }
                        if y == x {
                            assert(s2[p as int] == y);
                        }
                    }
                }
                assert(names.deep_view().take(i + 1).to_set() =~= names.deep_view().take(i as int).to_set().insert(x)) by {
                    let t = names.deep_view().take(i + 1);
                    let t0 = names.deep_view().take(i as int);
                    assert forall|y: Seq<char>| t.to_set().contains(y) <==> t0.to_set().insert(x).contains(y) by {
                        if t.contains(y) {
                            let k = choose|k: int| 0 <= k < t.len() && t[k] == y;
                            if k < i {
                                assert(t0[k] == y);
                            }
                        }
                        if t0.contains(y) {
                            let k = choose|k: int| 0 <= k < t0.len() && t0[k] == y;
                            assert(t[k] == y);
                        }
                        if y == x {
                            assert(t[i as int] == y);
                        }
                    }
                }
            }
        } else {
            proof {
                assert(prev[p as int] == x);
                assert(names.deep_view().take(i + 1).to_set() =~= names.deep_view().take(i as int).to_set()) by {
                    let t = names.deep_view().take(i + 1);
                    let t0 = names.deep_view().take(i as int);
                    assert(prev.to_set().contains(x));
                    assert forall|y: Seq<char>| t.to_set().contains(y) <==> t0.to_set().contains(y) by {
                        if t.contains(y) {
                            let k = choose|k: int| 0 <= k < t.len() && t[k] == y;
                            if k < i {
                                assert(t0[k] == y);
                            } else {
                                assert(y == x);
                            }
                        }
                        if t0.contains(y) {
                            let k = choose|k: int| 0 <= k < t0.len() && t0[k] == y;
                            assert(t[k] == y);
                        }
                    }
                }
            }
        }
    }
    assert(names.deep_view().take(n as int) =~= names.deep_view());
    out
}

/// Adds the entity-reference reason: the matched entity names, sorted and
/// without repeats, joined by `、`, worth one point. Nothing changes when no
/// entity matched.
pub fn apply_entity_match_names(result: &mut SearchResult, names: &Vec<String>)
    requires
        old(result).score < i64::MAX,
    ensures
        final(result).asset == old(result).asset,
        final(result).unmet_should == old(result).unmet_should,
        final(result).matching_segment_ids == old(result).matching_segment_ids,
        names@.len() == 0 ==> final(result).match_reasons == old(result).match_reasons
            && final(result).score == old(result).score,
        names@.len() > 0 ==> final(result).score == old(result).score + 1 && exists|u: Seq<Seq<char>>|
            strictly_sorted(u) && u.to_set() == names.deep_view().to_set()
                && final(result).match_reasons.deep_view() == old(result).match_reasons.deep_view().push(
                "命中实体参考："@ + joined(u, "、"@),
            ),
{
    if names.len() == 0 {
        return;
    }
    let unique = sorted_unique_names(names);
    let mut text = String::new();
    push_str(&mut text, "命中实体参考：");
    let ghost u = unique.deep_view();
    let m = unique.len();
    let ghost start = text@;
    for k in 0..m
        invariant
            m == unique@.len(),
            u == unique.deep_view(),
            text@ == start + joined(u.take(k as int), "、"@),
    {
        assert(u.take(k + 1).drop_last() =~= u.take(k as int));
        if k > 0 {
            push_str(&mut text, "、");
        }
        push_str(&mut text, unique[k].as_str());
        proof {
            if k == 0 {
                assert(u.take(1) =~= seq![u[0]]);
            }
        }
        assert(text@ =~= start + joined(u.take(k + 1), "、"@));
    }
    assert(u.take(m as int) =~= u);
    let ghost before = result.match_reasons.deep_view();
    result.match_reasons.push(text);
    assert(result.match_reasons.deep_view() =~= before.push("命中实体参考："@ + joined(u, "、"@)));
    result.score = result.score + 1;
}

// ---------------------------------------------------------------------------
// Final ranking
// ---------------------------------------------------------------------------

/// Ranking key of a result: higher score, then more recently modified, then
/// smaller asset id.
pub open spec fn rank_key(r: SearchResult) -> KeyView {
    KeyView { major: r.score as int, minor: r.asset.modified_at as int, text: r.asset.id@ }
}

pub open spec fn rank_keys(rs: Seq<SearchResult>) -> Seq<KeyView> {
    rs.map_values(|r: SearchResult| rank_key(r))
}

/// Orders merged candidates by score, then modification time (newest
/// first), then asset id; ties keep their incoming order.
pub fn rank_search_results(results: Vec<SearchResult>) -> (r: Vec<SearchResult>)
    ensures
        r@.len() == results@.len(),
        exists|o: Seq<usize>|
            sorted_order(rank_keys(results@), o) && forall|k: int|
                0 <= k < o.len() ==> r@[k] == results@[#[trigger] o[k] as int],
{
    let n = results.len();
    let mut keys: Vec<SortKey> = Vec::new();
    for i in 0..n
        invariant
            n == results@.len(),
            keys@.len() == i,
            forall|q: int| 0 <= q < i ==> (#[trigger] keys@[q]).deep_view() == rank_key(results@[q]),
    {
        let id = chars_of(results[i].asset.id.as_str());
        keys.push(SortKey { major: results[i].score, minor: results[i].asset.modified_at, text: id });
    }
    let order = sort_order(&keys);
    assert(keys.deep_view() =~= rank_keys(results@));
    proof {
        lemma_sorted_is_permutation(rank_keys(results@), order@);
    }
    let ghost o = order@;
    let out = permute(results, &order);
    out
}

/// Whether some asset of `t` carries the id `id`.
pub open spec fn has_asset_id(t: Seq<Asset>, id: Seq<char>) -> bool {
    exists|k: int| 0 <= k < t.len() && (#[trigger] t[k]).id@ == id
}

/// `t` after offering it each candidate in turn: a candidate is appended
/// unless an asset with its id is already present.
pub open spec fn merged_assets(t: Seq<Asset>, c: Seq<Asset>) -> Seq<Asset>
    decreases c.len(),
{
    if c.len() == 0 {
        t
    } else {
        let before = merged_assets(t, c.drop_last());
        if has_asset_id(before, c.last().id@) {
            before
        } else {
            before.push(c.last())
        }
    }
}

/// Appends the candidates whose ids are not yet present, in order.
pub fn merge_unique_assets(target: &mut Vec<Asset>, candidates: Vec<Asset>)
    ensures
        final(target)@ == merged_assets(old(target)@, candidates@),
{
    let ghost start = target@;
    let n = candidates.len();
    let ghost cands = candidates@;
    let mut rest = candidates;
    let mut reversed: Vec<Asset> = Vec::new();
    while rest.len() > 0
        invariant
            rest@.len() + reversed@.len() == n,
            n == cands.len(),
            rest@ == cands.take(rest@.len() as int),
            forall|j: int| 0 <= j < reversed@.len() ==> #[trigger] reversed@[j] == cands[n - 1 - j],
        decreases rest@.len(),
    {
        let x = rest.pop().unwrap();
        reversed.push(x);
        assert(rest@ =~= cands.take(rest@.len() as int));
    }
    let mut i: usize = 0;
    assert(cands.take(0) =~= Seq::<Asset>::empty());
    while reversed.len() > 0
        invariant
            reversed@.len() + i == n,
            n == cands.len(),
            forall|j: int| 0 <= j < reversed@.len() ==> #[trigger] reversed@[j] == cands[n - 1 - j],
            target@ == merged_assets(start, cands.take(i as int)),
        decreases reversed@.len(),
    {
        let x = reversed.pop().unwrap();
        assert(x == cands[i as int]);
        let xid = chars_of(x.id.as_str());
        let m = target.len();
        let mut k: usize = 0;
        let mut present = false;
        while k < m
            invariant_except_break
                !present,
            invariant
                m == target@.len(),
                xid@ == x.id@,
                k <= m,
                forall|q: int| 0 <= q < k ==> (#[trigger] target@[q]).id@ != x.id@,
            ensures
                present ==> k < m && target@[k as int].id@ == x.id@,
                !present ==> forall|q: int| 0 <= q < m ==> (#[trigger] target@[q]).id@ != x.id@,
            decreases m - k,
        {
            let tid = chars_of(target[k].id.as_str());
            if crate::text::chars_eq(&tid, &xid) {
                present = true;
                break;
            }
            k = k + 1;
        }
        let ghost before = target@;
        let ghost c1 = cands.take(i + 1);
        assert(c1.drop_last() =~= cands.take(i as int));
        assert(c1.last() == x);
        if present {
            assert(before[k as int].id@ == x.id@);
            assert(has_asset_id(before, x.id@));
        } else {
            assert(!has_asset_id(before, x.id@));
            target.push(x);
        }
        i = i + 1;
    }
    assert(cands.take(n as int) =~= cands);
}

/// No two assets of the list share an id.
pub open spec fn ids_unique(t: Seq<Asset>) -> bool {
    forall|i: int, j: int| 0 <= i < j < t.len() ==> (#[trigger] t[i]).id@ != (#[trigger] t[j]).id@
}

/// Merging keeps every asset once: a list without repeated ids stays
/// without them, what was there stays first and unchanged, and everything
/// added is one of the candidates.
pub proof fn law_merge_keeps_assets_unique(t: Seq<Asset>, c: Seq<Asset>)
    requires
        ids_unique(t),
    ensures
        ids_unique(merged_assets(t, c)),
        merged_assets(t, c).len() >= t.len(),
        merged_assets(t, c).take(t.len() as int) == t,
        forall|k: int| t.len() <= k < merged_assets(t, c).len() ==> c.contains(#[trigger] merged_assets(t, c)[k]),
    decreases c.len(),
{
    if c.len() == 0 {
        assert(t.take(t.len() as int) =~= t);
    } else {
        let d = c.drop_last();
        law_merge_keeps_assets_unique(t, d);
        let before = merged_assets(t, d);
        assert forall|k: int| t.len() <= k < before.len() implies c.contains(#[trigger] before[k]) by {
            let q = choose|q: int| 0 <= q < d.len() && d[q] == before[k];
            assert(c[q] == d[q]);
        }
        if !has_asset_id(before, c.last().id@) {
            let after = before.push(c.last());
            assert(after.take(t.len() as int) =~= before.take(t.len() as int));
            assert forall|i: int, j: int| 0 <= i < j < after.len() implies (#[trigger] after[i]).id@ != (#[trigger] after[j]).id@ by {
                if j == after.len() - 1 {
                    assert(after[i] == before[i]);
                }
            }
            assert forall|k: int| t.len() <= k < after.len() implies c.contains(#[trigger] after[k]) by {
                if k == after.len() - 1 {
                    assert(c[c.len() - 1] == c.last());
                } else {
                    assert(after[k] == before[k]);
                }
            }
        }
    }
}

proof fn lemma_allowed_candidates_are_allowed(c: Seq<Asset>, ids: Seq<Seq<char>>)
    ensures
        forall|k: int| 0 <= k < allowed_candidates(c, ids).len() ==> c.contains(#[trigger] allowed_candidates(c, ids)[k])
            && id_allowed(ids, allowed_candidates(c, ids)[k].id@),
    decreases c.len(),
{
    if c.len() > 0 {
        let d = c.drop_last();
        lemma_allowed_candidates_are_allowed(d, ids);
        let a = allowed_candidates(c, ids);
        let ad = allowed_candidates(d, ids);
        assert forall|k: int| 0 <= k < a.len() implies c.contains(#[trigger] a[k]) && id_allowed(ids, a[k].id@) by {
            if k < ad.len() {
                assert(a[k] == ad[k]);
                let q = choose|q: int| 0 <= q < d.len() && d[q] == ad[k];
                assert(c[q] == d[q]);
            } else {
                assert(a[k] == c.last());
                assert(c[c.len() - 1] == c.last());
            }
        }
    }
}

/// Candidates from another retrieval path join the results only when the
/// search's hard filters allow them, and never twice.
pub proof fn law_admitted_candidates_are_allowed_and_unique(t: Seq<Asset>, c: Seq<Asset>, ids: Seq<Seq<char>>)
    requires
        ids_unique(t),
    ensures
        ({
            let m = merged_assets(t, allowed_candidates(c, ids));
            &&& ids_unique(m)
            &&& m.len() >= t.len()
            &&& m.take(t.len() as int) == t
            &&& forall|k: int| t.len() <= k < m.len() ==> c.contains(#[trigger] m[k]) && id_allowed(ids, m[k].id@)
        }),
{
    let a = allowed_candidates(c, ids);
    let m = merged_assets(t, a);
    law_merge_keeps_assets_unique(t, a);
    lemma_allowed_candidates_are_allowed(c, ids);
    assert forall|k: int| t.len() <= k < m.len() implies c.contains(#[trigger] m[k]) && id_allowed(ids, m[k].id@) by {
        assert(a.contains(m[k]));
        let q = choose|q: int| 0 <= q < a.len() && a[q] == m[k];
    }
}

/// Whether `id` is among `ids`.
pub open spec fn id_allowed(ids: Seq<Seq<char>>, id: Seq<char>) -> bool {
    ids.contains(id)
}

/// The candidates whose ids are allowed, in order.
pub open spec fn allowed_candidates(cands: Seq<Asset>, ids: Seq<Seq<char>>) -> Seq<Asset>
    decreases cands.len(),
{
    if cands.len() == 0 {
        Seq::empty()
    } else {
        allowed_candidates(cands.drop_last(), ids) + if id_allowed(ids, cands.last().id@) {
            seq![cands.last()]
        } else {
            Seq::empty()
        }
    }
}

fn contains_id(ids: &Vec<String>, id: &str) -> (r: bool)
    ensures
        r == id_allowed(ids.deep_view(), id@),
{
    let x = chars_of(id);
    let n = ids.len();
    for k in 0..n
        invariant
            n == ids@.len(),
            x@ == id@,
            forall|q: int| 0 <= q < k ==> ids.deep_view()[q] != id@,
    {
        let y = chars_of(ids[k].as_str());
        if crate::text::chars_eq(&x, &y) {
            assert(ids.deep_view()[k as int] == id@);
            return true;
        }
    }
    proof {
        if ids.deep_view().contains(id@) {
            let q = choose|q: int| 0 <= q < ids.deep_view().len() && ids.deep_view()[q] == id@;
            assert(false);
        }
    }
    false
}

/// Adds the candidates a second retrieval path found, keeping only those
/// the request's filters allow and skipping assets already present; returns
/// the ids of every allowed candidate, in order.
pub fn admit_candidates(assets: &mut Vec<Asset>, candidates: Vec<Asset>, allowed_ids: &Vec<String>) -> (r: Vec<String>)
    ensures
        final(assets)@ == merged_assets(old(assets)@, allowed_candidates(candidates@, allowed_ids.deep_view())),
        r.deep_view() == allowed_candidates(candidates@, allowed_ids.deep_view()).map_values(|a: Asset| a.id@),
{
    let ghost cands = candidates@;
    let ghost ids = allowed_ids.deep_view();
    let n = candidates.len();
    let mut rest = candidates;
    let mut reversed: Vec<Asset> = Vec::new();
    while rest.len() > 0
        invariant
            rest@.len() + reversed@.len() == n,
            n == cands.len(),
            rest@ == cands.take(rest@.len() as int),
            forall|j: int| 0 <= j < reversed@.len() ==> #[trigger] reversed@[j] == cands[n - 1 - j],
        decreases rest@.len(),
    {
        let x = rest.pop().unwrap();
        reversed.push(x);
        assert(rest@ =~= cands.take(rest@.len() as int));
    }
    let mut kept: Vec<Asset> = Vec::new();
    let mut kept_ids: Vec<String> = Vec::new();
    let mut i: usize = 0;
    assert(cands.take(0) =~= Seq::<Asset>::empty());
    while reversed.len() > 0
        invariant
            reversed@.len() + i == n,
            n == cands.len(),
            ids == allowed_ids.deep_view(),
            forall|j: int| 0 <= j < reversed@.len() ==> #[trigger] reversed@[j] == cands[n - 1 - j],
            kept@ == allowed_candidates(cands.take(i as int), ids),
            kept_ids.deep_view() == kept@.map_values(|a: Asset| a.id@),
        decreases reversed@.len(),
    {
        let x = reversed.pop().unwrap();
        assert(x == cands[i as int]);
        assert(cands.take(i + 1).drop_last() =~= cands.take(i as int));
        assert(cands.take(i + 1).last() == x);
        if contains_id(allowed_ids, x.id.as_str()) {
            let id = x.id.clone();
            let ghost before = kept_ids.deep_view();
            let ghost kept_before = kept@;
            kept_ids.push(id);
            assert(kept_ids.deep_view() =~= before.push(x.id@));
            kept.push(x);
            assert(kept@ == kept_before.push(x));
            assert(kept_before.push(x).map_values(|a: Asset| a.id@) =~= kept_before.map_values(|a: Asset| a.id@).push(x.id@));
            assert(kept_ids.deep_view() =~= kept@.map_values(|a: Asset| a.id@));
        }
        i = i + 1;
    }
    assert(cands.take(n as int) =~= cands);
    merge_unique_assets(assets, kept);
    kept_ids
}

/// The visual reason shown for a result: CLIP semantic recall for assets it
/// found, else the colour fallback when the results came from it.
pub fn visual_reason(asset_id: &str, semantic_ids: &Vec<String>, colour_fallback: bool) -> (r: Option<&'static str>)
    ensures
        id_allowed(semantic_ids.deep_view(), asset_id@) ==> (r matches Some(v) && v@ == "命中本地 CLIP 图文语义向量"@),
        !id_allowed(semantic_ids.deep_view(), asset_id@) && colour_fallback ==> (r matches Some(v) && v@ == "命中本地颜色视觉特征"@),
        !id_allowed(semantic_ids.deep_view(), asset_id@) && !colour_fallback ==> r is None,
{
    if contains_id(semantic_ids, asset_id) {
        Some("命中本地 CLIP 图文语义向量")
    } else if colour_fallback {
        Some("命中本地颜色视觉特征")
    } else {
        None
    }
}


// ---------------------------------------------------------------------------
// The whole explanation of a recalled candidate, and the final list
// ---------------------------------------------------------------------------

/// One recalled asset with what its explanation reads beside the request:
/// the names of the entities it was recalled through, its confirmed ACG tags
/// and the flags of its segments.
#[derive(Debug)]
pub struct Candidate {
    pub asset: Asset,
    pub entity_names: Vec<String>,
    pub acg_tags: Vec<String>,
    pub segments: Vec<SegmentFlags>,
}

/// The visual reason of an asset: semantic recall first, then the colour
/// fallback (what `visual_reason` returns).
pub open spec fn visual_for(id: Seq<char>, semantic_ids: Seq<Seq<char>>, colour_fallback: bool) -> Option<Seq<char>> {
    if id_allowed(semantic_ids, id) {
        Some("命中本地 CLIP 图文语义向量"@)
    } else if colour_fallback {
        Some("命中本地颜色视觉特征"@)
    } else {
        None
    }
}

/// The keyword explanation of an asset (what `explain_search_result` gives).
pub open spec fn keyword_explanation(
    a: Asset,
    visual: Option<Seq<char>>,
    must: Seq<Seq<char>>,
    should: Seq<Seq<char>>,
) -> Explanation {
    Explanation {
        reasons: explained_reasons(searchable_text(a), visual, must, should),
        unmet: unmet_terms(searchable_text(a), should),
        score: explained_score(searchable_text(a), visual, must, should),
    }
}

/// `out` is `e` after the entity step: unchanged without entity names, else
/// one more point and the sorted, repeat-free names as one more reason.
pub open spec fn entity_step(e: Explanation, names: Seq<Seq<char>>, out: Explanation) -> bool {
    if names.len() == 0 {
        out == e
    } else {
        &&& out.score == e.score + 1
        &&& out.unmet == e.unmet
        &&& exists|u: Seq<Seq<char>>|
            strictly_sorted(u) && u.to_set() == names.to_set() && out.reasons == e.reasons.push(
                "命中实体参考："@ + joined(u, "、"@),
            )
    }
}

/// The tag and segment steps, in the order the search applies them.
pub open spec fn evidence_steps(
    e: Explanation,
    hay: Seq<char>,
    tags: Seq<Seq<char>>,
    flags: Seq<SegmentFlags>,
    must: Seq<Seq<char>>,
    should: Seq<Seq<char>>,
) -> Explanation {
    segment_should(
        segment_must(acg_should(acg_must(e, hay, tags, must), hay, tags, should), flags, must),
        flags,
        should,
    )
}

/// `r` is the full explanation of candidate `c` for the request's Must and
/// Should terms.
pub open spec fn explains(
    c: Candidate,
    r: SearchResult,
    must: Seq<Seq<char>>,
    should: Seq<Seq<char>>,
    semantic_ids: Seq<Seq<char>>,
    colour_fallback: bool,
) -> bool {
    &&& r.asset == c.asset
    &&& r.matching_segment_ids@.len() == 0
    &&& exists|e: Explanation|
        entity_step(
            keyword_explanation(c.asset, visual_for(c.asset.id@, semantic_ids, colour_fallback), must, should),
            c.entity_names.deep_view(),
            e,
        ) && explanation_of(r) == evidence_steps(
            e,
            searchable_text(c.asset),
            c.acg_tags.deep_view(),
            c.segments@,
            must,
            should,
        )
}

/// Explains one candidate completely: keyword and visual reasons, the entity
/// reference, then the ACG tags and the segment labels.
pub fn explain_candidate(
    candidate: Candidate,
    request: &SearchRequest,
    semantic_ids: &Vec<String>,
    colour_fallback: bool,
) -> (r: SearchResult)
    requires
        6 * request.must@.len() + 3 * request.should@.len() + 2 <= i64::MAX,
    ensures
        explains(
            candidate,
            r,
            request.must.deep_view(),
            request.should.deep_view(),
            semantic_ids.deep_view(),
            colour_fallback,
        ),
{
    let ghost c = candidate;
    let ghost must = request.must.deep_view();
    let ghost should = request.should.deep_view();
    let visual = visual_reason(candidate.asset.id.as_str(), semantic_ids, colour_fallback);
    let Candidate { asset, entity_names, acg_tags, segments } = candidate;
    let ghost hay = searchable_text(asset);
    let ghost vis = visual_for(asset.id@, semantic_ids.deep_view(), colour_fallback);
    proof {
        lemma_hit_count_bound(hay, must);
        lemma_hit_count_bound(hay, should);
    }
    let mut result = explain_search_result(asset, request, visual);
    let ghost base = explanation_of(result);
    assert(base == keyword_explanation(c.asset, vis, must, should));
    apply_entity_match_names(&mut result, &entity_names);
    let ghost e = explanation_of(result);
    assert(entity_step(base, entity_names.deep_view(), e));
    proof {
        lemma_acg_must_score(e, hay, acg_tags.deep_view(), must);
        lemma_acg_should_score(acg_must(e, hay, acg_tags.deep_view(), must), hay, acg_tags.deep_view(), should);
    }
    apply_acg_tag_explanations(&mut result, request, &acg_tags);
    apply_segment_label_explanations(&mut result, request, &segments);
    assert(explanation_of(result) == evidence_steps(e, hay, acg_tags.deep_view(), segments@, must, should));
    result
}

/// The search's final list: every candidate explained in turn, ranked, and
/// the ties diversified by library.
pub fn search_results(
    request: &SearchRequest,
    candidates: Vec<Candidate>,
    semantic_ids: &Vec<String>,
    colour_fallback: bool,
) -> (r: Vec<SearchResult>)
    requires
        6 * request.must@.len() + 3 * request.should@.len() + 2 <= i64::MAX,
        candidates@.len() <= i64::MAX,
    ensures
        r@.len() == candidates@.len(),
        exists|explained: Seq<SearchResult>, o: Seq<usize>, sorted: Seq<SearchResult>, d: Seq<usize>, f: Seq<bool>|
            {
                &&& explained.len() == candidates@.len()
                &&& forall|k: int|
                    0 <= k < explained.len() ==> explains(
                        candidates@[k],
                        #[trigger] explained[k],
                        request.must.deep_view(),
                        request.should.deep_view(),
                        semantic_ids.deep_view(),
                        colour_fallback,
                    )
                &&& sorted_order(rank_keys(explained), o)
                &&& sorted.len() == explained.len()
                &&& forall|k: int| 0 <= k < sorted.len() ==> #[trigger] sorted[k] == explained[o[k] as int]
                &&& diversify_plan(sorted, d, f)
                &&& forall|k: int| 0 <= k < r@.len() ==> carries(#[trigger] r@[k], sorted[d[k] as int], f[k])
            },
{
    let n = candidates.len();
    let ghost input = candidates@;
    let ghost must = request.must.deep_view();
    let ghost should = request.should.deep_view();
    let ghost sem = semantic_ids.deep_view();
    let mut rest = candidates;
    let mut stack: Vec<Candidate> = Vec::new();
    while rest.len() > 0
        invariant
            rest@.len() + stack@.len() == n,
            n == input.len(),
            rest@ == input.take(rest@.len() as int),
            forall|j: int| 0 <= j < stack@.len() ==> #[trigger] stack@[j] == input[n - 1 - j],
        decreases rest@.len(),
    {
        let c = rest.pop().unwrap();
        stack.push(c);
        assert(rest@ =~= input.take(rest@.len() as int));
    }
    let mut explained: Vec<SearchResult> = Vec::new();
    while stack.len() > 0
        invariant
            stack@.len() + explained@.len() == n,
            n == input.len(),
            6 * request.must@.len() + 3 * request.should@.len() + 2 <= i64::MAX,
            must == request.must.deep_view(),
            should == request.should.deep_view(),
            sem == semantic_ids.deep_view(),
            forall|j: int| 0 <= j < stack@.len() ==> #[trigger] stack@[j] == input[n - 1 - j],
            forall|k: int|
                0 <= k < explained@.len() ==> explains(
                    input[k],
                    #[trigger] explained@[k],
                    must,
                    should,
                    sem,
                    colour_fallback,
                ),
        decreases stack@.len(),
    {
        let ghost k = explained@.len();
        let c = stack.pop().unwrap();
        assert(c == input[k as int]);
        let r = explain_candidate(c, request, semantic_ids, colour_fallback);
        explained.push(r);
    }
    let ghost ex = explained@;
    let ranked = rank_search_results(explained);
    let ghost sorted = ranked@;
    let out = diversify_equal_score_results(ranked);
    out
}


/// A Must term counts once: tags add nothing for a term the asset's name or
/// path already satisfies, so text and tags together give each Must term at
/// most two points; when the text satisfies every Must term the tag step
/// changes nothing.
pub proof fn law_acg_must_never_recounts_text_hits(
    e: Explanation,
    hay: Seq<char>,
    tags: Seq<Seq<char>>,
    terms: Seq<Seq<char>>,
)
    ensures
        acg_must(e, hay, tags, terms).score - e.score + 2 * hit_count(hay, terms) <= 2 * terms.len(),
        (forall|i: int| 0 <= i < terms.len() ==> term_hits(hay, #[trigger] terms[i])) ==> acg_must(
            e,
            hay,
            tags,
            terms,
        ) == e,
    decreases terms.len(),
{
    if terms.len() > 0 {
        let d = terms.drop_last();
        law_acg_must_never_recounts_text_hits(e, hay, tags, d);
        if forall|i: int| 0 <= i < terms.len() ==> term_hits(hay, #[trigger] terms[i]) {
            assert forall|i: int| 0 <= i < d.len() implies term_hits(hay, #[trigger] d[i]) by {
                assert(d[i] == terms[i]);
            }
            assert(term_hits(hay, terms[terms.len() - 1]));
        }
    }
}

} // verus!
