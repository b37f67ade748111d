//! Entities in search: which entities a query names, and which assets an
//! entity's name and aliases point to.

use vstd::prelude::*;

use crate::models::{Asset, Entity};
use crate::order::{lemma_sorted_is_permutation, permute, sort_order, sorted_order, KeyView, SortKey};
use crate::search::SearchRequest;
use crate::text::{chars_of, contains_str, has_substring, lowercase, push_str, string_of, to_lowercase, trim_str, trimmed};

verus! {

// ---------------------------------------------------------------------------
// Entities named by a query
// ---------------------------------------------------------------------------

/// The positive search terms, trimmed and lower-cased, without empty ones.
pub open spec fn positive_terms(terms: Seq<Seq<char>>) -> Seq<Seq<char>>
    decreases terms.len(),
{
    if terms.len() == 0 {
        Seq::empty()
    } else {
        let t = lowercase(trimmed(terms.last()));
        positive_terms(terms.drop_last()) + if t.len() > 0 { seq![t] } else { Seq::empty() }
    }
}

/// Whether `n` occurs within one of the exclusion terms.
pub open spec fn within_exclusion(excluded: Seq<Seq<char>>, n: Seq<char>) -> bool {
    exists|j: int| 0 <= j < excluded.len() && has_substring(#[trigger] excluded[j], n)
}

/// A name (or alias) of an entity, trimmed and lower-cased, matches when it
/// is not empty and either equals a positive term or, being at least two
/// characters long, occurs in the lower-cased raw query without occurring
/// in an exclusion term (the raw text also holds the excluded words, and an
/// exclusion never recalls an entity).
pub open spec fn name_matches(name: Seq<char>, terms: Seq<Seq<char>>, raw: Seq<char>, excluded: Seq<Seq<char>>) -> bool {
    let n = lowercase(trimmed(name));
    n.len() > 0 && (terms.contains(n) || (n.len() >= 2 && has_substring(raw, n) && !within_exclusion(excluded, n)))
}

/// Whether an entity is named by the search, given its positive terms, its
/// lower-cased raw query and its exclusion terms.
pub open spec fn entity_named(e: Entity, terms: Seq<Seq<char>>, raw: Seq<char>, excluded: Seq<Seq<char>>) -> bool {
    name_matches(e.name@, terms, raw, excluded) || exists|k: int|
        0 <= k < e.aliases@.len() && name_matches(#[trigger] e.aliases@[k]@, terms, raw, excluded)
}

/// The raw query an entity name may occur in: lower-cased and trimmed.
pub open spec fn naming_raw_query(req: SearchRequest) -> Seq<char> {
    lowercase(trimmed(req.raw_query@))
}

/// The exclusion terms of a request, trimmed and lower-cased.
pub open spec fn exclusion_terms(req: SearchRequest) -> Seq<Seq<char>> {
    positive_terms(req.must_not.deep_view())
}

/// A request names no entity when it has no positive term and either has
/// exclusions or a blank raw query.
pub open spec fn request_names_nothing(req: SearchRequest) -> bool {
    let terms = positive_terms(req.must.deep_view() + req.should.deep_view());
    terms.len() == 0 && (req.must_not@.len() > 0 || lowercase(trimmed(req.raw_query@)).len() == 0)
}

fn lower_trimmed(s: &str) -> (r: String)
    ensures
        r@ == lowercase(trimmed(s@)),
{
    let t = trim_str(s);
    let ts = string_of(&t);
    to_lowercase(ts.as_str())
}

fn collect_terms(terms: &Vec<String>, out: &mut Vec<String>)
    ensures
        final(out).deep_view() == old(out).deep_view() + positive_terms(terms.deep_view()),
{
    let n = terms.len();
    let ghost start = out.deep_view();
    let ghost tv = terms.deep_view();
    for i in 0..n
        invariant
            n == tv.len(),
            tv == terms.deep_view(),
            out.deep_view() == start + positive_terms(tv.take(i as int)),
    {
        assert(tv.take(i + 1).drop_last() =~= tv.take(i as int));
        let t = lower_trimmed(terms[i].as_str());
        assert(tv[i as int] == terms@[i as int]@);
        assert(tv.take(i + 1).last() == tv[i as int]);
        let ghost before = out.deep_view();
        if !t.as_str().is_empty() {
            out.push(t);
            assert(out.deep_view() =~= before.push(t@));
        }
        assert(positive_terms(tv.take(i + 1)) == positive_terms(tv.take(i as int))
            + if t@.len() > 0 { seq![t@] } else { Seq::<Seq<char>>::empty() });
        assert(out.deep_view() =~= start + positive_terms(tv.take(i + 1)));
    }
    assert(tv.take(n as int) =~= tv);
}

fn within_exclusion_exec(excluded: &Vec<String>, n: &str) -> (r: bool)
    ensures
        r == within_exclusion(excluded.deep_view(), n@),
{
    let m = excluded.len();
    for j in 0..m
        invariant
            m == excluded@.len(),
            forall|q: int| 0 <= q < j ==> !has_substring(#[trigger] excluded.deep_view()[q], n@),
    {
        if contains_str(excluded[j].as_str(), n) {
            assert(has_substring(excluded.deep_view()[j as int], n@));
            return true;
        }
    }
    false
}

fn name_matches_exec(name: &str, terms: &Vec<String>, raw: &str, excluded: &Vec<String>) -> (r: bool)
    ensures
        r == name_matches(name@, terms.deep_view(), raw@, excluded.deep_view()),
{
    let n = lower_trimmed(name);
    if n.as_str().is_empty() {
        return false;
    }
    let nc = chars_of(n.as_str());
    let m = terms.len();
    for k in 0..m
        invariant
            m == terms@.len(),
            nc@ == n@,
            n@.len() > 0,
            n@ == lowercase(trimmed(name@)),
            forall|q: int| 0 <= q < k ==> terms.deep_view()[q] != n@,
    {
        let tc = chars_of(terms[k].as_str());
        if crate::text::chars_eq(&tc, &nc) {
            assert(terms.deep_view()[k as int] == n@);
            return true;
        }
    }
    proof {
        if terms.deep_view().contains(n@) {
            let q = choose|q: int| 0 <= q < terms.deep_view().len() && terms.deep_view()[q] == n@;
            assert(false);
        }
    }
    nc.len() >= 2 && contains_str(raw, n.as_str()) && !within_exclusion_exec(excluded, n.as_str())
}

fn entity_named_exec(e: &Entity, terms: &Vec<String>, raw: &str, excluded: &Vec<String>) -> (r: bool)
    ensures
        r == entity_named(*e, terms.deep_view(), raw@, excluded.deep_view()),
{
    if name_matches_exec(e.name.as_str(), terms, raw, excluded) {
        return true;
    }
    let n = e.aliases.len();
    for k in 0..n
        invariant
            n == e.aliases@.len(),
            !name_matches(e.name@, terms.deep_view(), raw@, excluded.deep_view()),
            forall|q: int| 0 <= q < k ==> !name_matches(#[trigger] e.aliases@[q]@, terms.deep_view(), raw@, excluded.deep_view()),
    {
        if name_matches_exec(e.aliases[k].as_str(), terms, raw, excluded) {
            return true;
        }
    }
    false
}

/// `a` is a copy of `b`: the same fields, and aliases with the same text.
pub open spec fn same_entity(a: Entity, b: Entity) -> bool {
    &&& a.id == b.id
    &&& a.entity_type == b.entity_type
    &&& a.name == b.name
    &&& a.description == b.description
    &&& a.aliases@ == b.aliases@
    &&& a.pack_id == b.pack_id
    &&& a.created_at == b.created_at
    &&& a.updated_at == b.updated_at
}

fn copy_entity(e: &Entity) -> (r: Entity)
    ensures
        same_entity(r, *e),
{
    let aliases = e.aliases.clone();
    assert(aliases@ =~= e.aliases@);
    Entity {
        id: e.id.clone(),
        entity_type: e.entity_type.clone(),
        name: e.name.clone(),
        description: match &e.description {
            Some(d) => Some(d.clone()),
            None => None,
        },
        aliases,
        pack_id: match &e.pack_id {
            Some(d) => Some(d.clone()),
            None => None,
        },
        created_at: e.created_at,
        updated_at: e.updated_at,
    }
}

/// The entities a search names, in their listed order.
pub fn entities_matching_search_request(entities: &Vec<Entity>, request: &SearchRequest) -> (r: Vec<Entity>)
    ensures
        request_names_nothing(*request) ==> r@.len() == 0,
        !request_names_nothing(*request) ==> {
            let kept = entities@.filter(|e: Entity| entity_named(
                e,
                positive_terms(request.must.deep_view() + request.should.deep_view()),
                naming_raw_query(*request),
                exclusion_terms(*request),
            ));
            r@.len() == kept.len() && forall|k: int| 0 <= k < r@.len() ==> same_entity(#[trigger] r@[k], kept[k])
        },
{
    let mut terms: Vec<String> = Vec::new();
    collect_terms(&request.must, &mut terms);
    collect_terms(&request.should, &mut terms);
    proof {
        crate::entities::lemma_positive_terms_append(request.must.deep_view(), request.should.deep_view());
    }
    let full_raw = lower_trimmed(request.raw_query.as_str());
    if terms.len() == 0 && (request.must_not.len() > 0 || full_raw.as_str().is_empty()) {
        return Vec::new();
    }
    let raw = full_raw;
    let mut excluded: Vec<String> = Vec::new();
    collect_terms(&request.must_not, &mut excluded);
    assert(excluded.deep_view() =~= exclusion_terms(*request));
    let ghost tv = terms.deep_view();
    let ghost ex = excluded.deep_view();
    let ghost pred = |e: Entity| entity_named(e, tv, raw@, ex);
    let mut out: Vec<Entity> = Vec::new();
    let n = entities.len();
    for i in 0..n
        invariant
            n == entities@.len(),
            tv == terms.deep_view(),
            ex == excluded.deep_view(),
            pred == (|e: Entity| entity_named(e, tv, raw@, ex)),
            out@.len() == entities@.take(i as int).filter(pred).len(),
            forall|k: int| 0 <= k < out@.len() ==> same_entity(#[trigger] out@[k], entities@.take(i as int).filter(pred)[k]),
    {
        proof {
            assert(entities@.take(i + 1).drop_last() =~= entities@.take(i as int));
            reveal(Seq::filter);
            assert(entities@.take(i + 1).last() == entities@[i as int]);
        }
        if entity_named_exec(&entities[i], &terms, raw.as_str(), &excluded) {
            out.push(copy_entity(&entities[i]));
        }
    }
    assert(entities@.take(n as int) =~= entities@);
    out
}

/// Must Not terms only exclude: adding exclusions to a search never makes it
/// name an entity that the search without them did not name.
pub proof fn law_must_not_never_adds_entities(req: SearchRequest, more: SearchRequest, extra: Seq<String>, e: Entity)
    requires
        more.raw_query == req.raw_query,
        more.must@ == req.must@,
        more.should@ == req.should@,
        more.must_not@ == req.must_not@ + extra,
        !request_names_nothing(more),
        entity_named(
            e,
            positive_terms(more.must.deep_view() + more.should.deep_view()),
            naming_raw_query(more),
            exclusion_terms(more),
        ),
    ensures
        !request_names_nothing(req),
        entity_named(
            e,
            positive_terms(req.must.deep_view() + req.should.deep_view()),
            naming_raw_query(req),
            exclusion_terms(req),
        ),
{
    assert(more.must.deep_view() =~= req.must.deep_view());
    assert(more.should.deep_view() =~= req.should.deep_view());
    let terms = positive_terms(req.must.deep_view() + req.should.deep_view());
    let raw = naming_raw_query(req);
    assert(more.must_not.deep_view() =~= req.must_not.deep_view() + extra.map_values(|s: String| s@));
    lemma_positive_terms_append(req.must_not.deep_view(), extra.map_values(|s: String| s@));
    let ex = exclusion_terms(req);
    let mex = exclusion_terms(more);
    assert forall|n: Seq<char>| #[trigger] within_exclusion(ex, n) implies within_exclusion(mex, n) by {
        let j = choose|j: int| 0 <= j < ex.len() && has_substring(#[trigger] ex[j], n);
        assert(mex[j] == ex[j]);
    }
    assert forall|name: Seq<char>| #[trigger] name_matches(name, terms, raw, mex)
        implies name_matches(name, terms, raw, ex) by {
    }
    if name_matches(e.name@, terms, raw, mex) {
    } else {
        let k = choose|k: int| 0 <= k < e.aliases@.len() && name_matches(#[trigger] e.aliases@[k]@, terms, raw, mex);
        assert(name_matches(e.aliases@[k]@, terms, raw, ex));
    }
    if more.must_not@.len() == 0 {
        assert(req.must_not@ =~= more.must_not@);
    }
}

/// An entity whose every name occurs within an exclusion term is named only
/// through a positive term: the raw text, which also holds the excluded
/// words, never recalls it.
pub proof fn law_excluded_names_recall_only_through_positive_terms(req: SearchRequest, e: Entity)
    requires
        within_exclusion(exclusion_terms(req), lowercase(trimmed(e.name@))),
        forall|k: int| 0 <= k < e.aliases@.len() ==> within_exclusion(exclusion_terms(req), lowercase(trimmed(#[trigger] e.aliases@[k]@))),
        entity_named(
            e,
            positive_terms(req.must.deep_view() + req.should.deep_view()),
            naming_raw_query(req),
            exclusion_terms(req),
        ),
    ensures
        ({
            let terms = positive_terms(req.must.deep_view() + req.should.deep_view());
            terms.contains(lowercase(trimmed(e.name@)))
                || exists|k: int| 0 <= k < e.aliases@.len() && terms.contains(lowercase(trimmed(#[trigger] e.aliases@[k]@)))
        }),
{
    let terms = positive_terms(req.must.deep_view() + req.should.deep_view());
    let raw = naming_raw_query(req);
    let ex = exclusion_terms(req);
    if name_matches(e.name@, terms, raw, ex) {
    } else {
        let k = choose|k: int| 0 <= k < e.aliases@.len() && name_matches(#[trigger] e.aliases@[k]@, terms, raw, ex);
        assert(terms.contains(lowercase(trimmed(e.aliases@[k]@))));
    }
}

pub proof fn lemma_positive_terms_append(a: Seq<Seq<char>>, b: Seq<Seq<char>>)
    ensures
        positive_terms(a + b) == positive_terms(a) + positive_terms(b),
    decreases b.len(),
{
    if b.len() == 0 {
        assert(a + b =~= a);
    } else {
        lemma_positive_terms_append(a, b.drop_last());
        assert((a + b).drop_last() =~= a + b.drop_last());
        assert((a + b).last() == b.last());
    }
}

// ---------------------------------------------------------------------------
// Assets named after an entity
// ---------------------------------------------------------------------------

/// An entity's search terms: its lower-cased name then aliases, without
/// those that are blank.
pub open spec fn entity_terms_of(name: Seq<char>, aliases: Seq<Seq<char>>) -> Seq<Seq<char>> {
    (seq![name] + aliases).map_values(|t: Seq<char>| lowercase(t)).filter(|t: Seq<char>| trimmed(t).len() > 0)
}

/// The entity's search terms.
pub fn entity_terms(name: &str, aliases: &Vec<String>) -> (r: Vec<String>)
    ensures
        r.deep_view() == entity_terms_of(name@, aliases.deep_view()),
{
    let ghost all = (seq![name@] + aliases.deep_view()).map_values(|t: Seq<char>| lowercase(t));
    let ghost pred = |t: Seq<char>| trimmed(t).len() > 0;
    let mut out: Vec<String> = Vec::new();
    let first = to_lowercase(name);
    proof {
        reveal(Seq::filter);
        assert(all.take(0) =~= Seq::<Seq<char>>::empty());
        assert(all.take(1).drop_last() =~= all.take(0));
        assert(all[0] == first@);
    }
    assert(all.take(1).last() == all[0]);
    assert(all.take(0).filter(pred) =~= Seq::<Seq<char>>::empty());
    if !crate::text::is_blank(first.as_str()) {
        out.push(first);
        assert(out.deep_view() =~= seq![all[0]]);
    }
    assert(out.deep_view() =~= all.take(1).filter(pred));
    let n = aliases.len();
    for i in 0..n
        invariant
            n == aliases@.len(),
            all == (seq![name@] + aliases.deep_view()).map_values(|t: Seq<char>| lowercase(t)),
            pred == (|t: Seq<char>| trimmed(t).len() > 0),
            out.deep_view() == all.take(i + 1).filter(pred),
    {
        let t = to_lowercase(aliases[i].as_str());
        proof {
            reveal(Seq::filter);
            assert(all.take(i + 2).drop_last() =~= all.take(i + 1));
            assert(all[i + 1] == lowercase(aliases.deep_view()[i as int]));
            assert(all.take(i + 2).last() == t@);
        }
        let ghost before = out.deep_view();
        if !crate::text::is_blank(t.as_str()) {
            out.push(t);
            assert(out.deep_view() =~= before.push(all[i + 1]));
        }
    }
    assert(all.take(n + 1) =~= all);
    out
}

/// The lower-cased text an asset is matched against: name, a space, path.
pub open spec fn asset_haystack(a: Asset) -> Seq<char> {
    lowercase(a.file_name@ + seq![' '] + a.file_path@)
}

/// How many of the terms occur in the asset's name or path.
pub open spec fn term_score(hay: Seq<char>, terms: Seq<Seq<char>>) -> nat
    decreases terms.len(),
{
    if terms.len() == 0 {
        0
    } else {
        term_score(hay, terms.drop_last()) + if has_substring(hay, terms.last()) { 1nat } else { 0nat }
    }
}

proof fn lemma_term_score_bound(hay: Seq<char>, terms: Seq<Seq<char>>)
    ensures
        term_score(hay, terms) <= terms.len(),
    decreases terms.len(),
{
    if terms.len() > 0 {
        lemma_term_score_bound(hay, terms.drop_last());
    }
}

fn score_of(a: &Asset, terms: &Vec<String>) -> (r: u64)
    ensures
        r == term_score(asset_haystack(*a), terms.deep_view()),
{
    let mut text = String::new();
    push_str(&mut text, a.file_name.as_str());
    push_str(&mut text, " ");
    push_str(&mut text, a.file_path.as_str());
    proof {
        reveal_strlit(" ");
    }
    assert(text@ =~= a.file_name@ + seq![' '] + a.file_path@);
    let hay = to_lowercase(text.as_str());
    let n = terms.len();
    let mut score: u64 = 0;
    for i in 0..n
        invariant
            n == terms@.len(),
            hay@ == asset_haystack(*a),
            score == term_score(hay@, terms.deep_view().take(i as int)),
            score <= i,
    {
        assert(terms.deep_view().take(i + 1).drop_last() =~= terms.deep_view().take(i as int));
        assert(terms.deep_view().take(i + 1).last() == terms@[i as int]@);
        if contains_str(hay.as_str(), terms[i].as_str()) {
            score = score + 1;
        }
    }
    assert(terms.deep_view().take(n as int) =~= terms.deep_view());
    score
}

/// The assets that mention at least one term, as ranked for an entity: more
/// terms first, then by file name.
pub open spec fn scored_assets(assets: Seq<Asset>, terms: Seq<Seq<char>>) -> Seq<Asset> {
    assets.filter(mentions_a_term(terms))
}

/// Whether an asset's name or path mentions one of the terms.
pub open spec fn mentions_a_term(terms: Seq<Seq<char>>) -> spec_fn(Asset) -> bool {
    |a: Asset| term_score(asset_haystack(a), terms) > 0
}

pub open spec fn term_rank_key(a: Asset, terms: Seq<Seq<char>>) -> KeyView {
    KeyView { major: term_score(asset_haystack(a), terms) as int, minor: 0, text: a.file_name@ }
}

pub open spec fn term_rank_keys(sel: Seq<Asset>, terms: Seq<Seq<char>>) -> Seq<KeyView> {
    sel.map_values(|a: Asset| term_rank_key(a, terms))
}

fn copy_asset(a: &Asset) -> (r: Asset)
    ensures
        r == *a,
{
    Asset {
        id: a.id.clone(),
        library_id: a.library_id.clone(),
        media_type: a.media_type,
        file_path: a.file_path.clone(),
        normalized_path: a.normalized_path.clone(),
        file_name: a.file_name.clone(),
        extension: a.extension.clone(),
        size_bytes: a.size_bytes,
        modified_at: a.modified_at,
        quick_fingerprint: a.quick_fingerprint.clone(),
        full_hash: match &a.full_hash { Some(v) => Some(v.clone()), None => None },
        duration_ms: a.duration_ms,
        width: a.width,
        height: a.height,
        frame_rate: a.frame_rate,
        codec: match &a.codec { Some(v) => Some(v.clone()), None => None },
        capture_time: a.capture_time,
        status: a.status,
        index_level: a.index_level,
        analysis_version: a.analysis_version,
        created_at: a.created_at,
        updated_at: a.updated_at,
        thumbnail_data_url: match &a.thumbnail_data_url { Some(v) => Some(v.clone()), None => None },
    }
}

/// The indexed assets that mention an entity's terms, best first (more
/// terms, then file name, then listed order), at most `limit` of them.
pub fn assets_matching_entity_terms(assets: &Vec<Asset>, terms: &Vec<String>, limit: usize) -> (r: Vec<Asset>)
    requires
        terms@.len() <= i64::MAX,
    ensures
        exists|o: Seq<usize>| #[trigger] sorted_order(term_rank_keys(scored_assets(assets@, terms.deep_view()), terms.deep_view()), o)
            && r@.len() == if limit < scored_assets(assets@, terms.deep_view()).len() {
                limit as int
            } else {
                scored_assets(assets@, terms.deep_view()).len() as int
            } && forall|k: int| 0 <= k < r@.len() ==> r@[k] == scored_assets(assets@, terms.deep_view())[#[trigger] o[k] as int],
{
    let ghost tv = terms.deep_view();
    let ghost pred = mentions_a_term(tv);
    let mut sel: Vec<Asset> = Vec::new();
    let mut keys: Vec<SortKey> = Vec::new();
    let n = assets.len();
    for i in 0..n
        invariant
            n == assets@.len(),
            tv == terms.deep_view(),
            pred == mentions_a_term(tv),
            tv.len() <= i64::MAX,
            sel@ == assets@.take(i as int).filter(pred),
            keys@.len() == sel@.len(),
            forall|q: int| 0 <= q < keys@.len() ==> (#[trigger] keys@[q]).deep_view() == term_rank_key(sel@[q], tv),
    {
        proof {
            reveal(Seq::filter);
            assert(assets@.take(i + 1).drop_last() =~= assets@.take(i as int));
            assert(assets@.take(i + 1).last() == assets@[i as int]);
        }
        let score = score_of(&assets[i], terms);
        proof {
            lemma_term_score_bound(asset_haystack(assets@[i as int]), tv);
        }
        if score > 0 {
            let name = chars_of(assets[i].file_name.as_str());
            keys.push(SortKey { major: score as i64, minor: 0, text: name });
            sel.push(copy_asset(&assets[i]));
        }
    }
    assert(assets@.take(n as int) =~= assets@);
    let ghost s = sel@;
    assert(keys.deep_view() =~= term_rank_keys(s, tv));
    let order = sort_order(&keys);
    proof {
        lemma_sorted_is_permutation(keys.deep_view(), order@);
    }
    let ghost o = order@;
    let mut ranked = permute(sel, &order);
    let ghost full = ranked@;
    if limit < ranked.len() {
        ranked.truncate(limit);
    }
    proof {
        assert(s == scored_assets(assets@, tv));
        assert(keys.deep_view() == term_rank_keys(scored_assets(assets@, tv), tv));
        assert(sorted_order(term_rank_keys(scored_assets(assets@, tv), tv), o));
        assert forall|k: int| 0 <= k < ranked@.len() implies ranked@[k] == scored_assets(assets@, tv)[#[trigger] o[k] as int] by {
            assert(ranked@[k] == full[k]);
        }
    }
    ranked
}

} // verus!
