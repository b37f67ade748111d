//! Rules for stored collections: ordering select items, user tags, and
//! moving a library to a new root.

use vstd::prelude::*;

use crate::errors::AppError;
use crate::models::{Asset, AssetStatus, Library, LibraryStatus};
use crate::text::{string_of, trim_str, trimmed};

verus! {

// ---------------------------------------------------------------------------
// Select item order
// ---------------------------------------------------------------------------

/// The position an item is moved to: the requested one, clamped to the
/// collection's positions `0..count`.
pub open spec fn clamped_target(target: int, count: int) -> int {
    let max = if count - 1 < 0 { 0 } else { count - 1 };
    if target < 0 { 0 } else if target > max { max } else { target }
}

/// The new position of an item at `p` when the item at `old` moves to `t`:
/// the items in between shift by one towards the gap.
pub open spec fn shifted_position(p: int, moved: bool, old: int, t: int) -> int {
    if moved {
        t
    } else if t < old && t <= p && p < old {
        p + 1
    } else if t > old && old < p && p <= t {
        p - 1
    } else {
        p
    }
}

/// Moves item `item` of a collection (given the positions of all its items)
/// to `target_position`; returns every item's new position.
pub fn reorder_positions(positions: &Vec<i64>, item: usize, target_position: i64) -> (r: Vec<i64>)
    requires
        item < positions@.len() <= i64::MAX,
    ensures
        r@.len() == positions@.len(),
        forall|k: int| 0 <= k < r@.len() ==> #[trigger] r@[k] == shifted_position(
            positions@[k] as int,
            k == item,
            positions@[item as int] as int,
            clamped_target(target_position as int, positions@.len() as int),
        ),
{
    let n = positions.len();
    let max: i64 = (n - 1) as i64;
    let t: i64 = if target_position < 0 { 0 } else if target_position > max { max } else { target_position };
    let old = positions[item];
    let mut out: Vec<i64> = Vec::new();
    for k in 0..n
        invariant
            n == positions@.len(),
            item < n,
            old == positions@[item as int],
            t == clamped_target(target_position as int, n as int),
            out@.len() == k,
            forall|q: int| 0 <= q < k ==> #[trigger] out@[q] == shifted_position(
                positions@[q] as int, q == item, old as int, t as int),
    {
        let p = positions[k];
        let np = if k == item {
            t
        } else if t < old && t <= p && p < old {
            p + 1
        } else if t > old && old < p && p <= t {
            p - 1
        } else {
            p
        };
        out.push(np);
    }
    out
}

/// Positions `0..n` each held by exactly one item.
pub open spec fn is_arrangement(ps: Seq<int>) -> bool {
    &&& forall|k: int| 0 <= k < ps.len() ==> 0 <= #[trigger] ps[k] < ps.len()
    &&& forall|a: int, b: int| 0 <= a < b < ps.len() ==> #[trigger] ps[a] != #[trigger] ps[b]
}

/// Moving an item keeps a well-ordered collection well ordered: when the
/// items hold the positions `0..n` once each, so they do afterwards, and the
/// moved item is at the (clamped) target.
pub proof fn law_reorder_keeps_an_arrangement(ps: Seq<int>, item: int, target: int)
    requires
        is_arrangement(ps),
        0 <= item < ps.len(),
    ensures
        is_arrangement(Seq::new(ps.len(), |k: int| shifted_position(ps[k], k == item, ps[item], clamped_target(target, ps.len() as int)))),
        shifted_position(ps[item], true, ps[item], clamped_target(target, ps.len() as int))
            == clamped_target(target, ps.len() as int),
{
    let n = ps.len() as int;
    let t = clamped_target(target, n);
    let old = ps[item];
    let qs = Seq::new(ps.len(), |k: int| shifted_position(ps[k], k == item, old, t));
    assert forall|k: int| 0 <= k < qs.len() implies 0 <= #[trigger] qs[k] < qs.len() by {
        assert(0 <= ps[k] < n);
    }
    assert forall|a: int, b: int| 0 <= a < b < qs.len() implies #[trigger] qs[a] != #[trigger] qs[b] by {
        assert(ps[a] != ps[b]);
        if a == item {
            assert(ps[b] != old);
        } else if b == item {
            assert(ps[a] != old);
        } else {
            assert(ps[a] != old && ps[b] != old);
        }
    }
}

/// An item moved into another collection goes after its `count` items.
pub fn appended_position(count: i64) -> (r: i64)
    ensures
        r == count,
{
    count
}

// ---------------------------------------------------------------------------
// Tags
// ---------------------------------------------------------------------------

/// A user tag value: trimmed, from 1 to 80 characters.
pub fn acg_tag_value(value: &str) -> (r: Result<String, AppError>)
    ensures
        r is Ok <==> 0 < trimmed(value@).len() <= 80,
        r matches Ok(v) ==> v@ == trimmed(value@),
        r matches Err(e) ==> e matches AppError::Other(m) && m@ == "标签不能为空且最长 80 个字符"@,
{
    let t = trim_str(value);
    if t.len() == 0 || t.len() > 80 {
        return Err(AppError::Other("标签不能为空且最长 80 个字符".to_string()));
    }
    Ok(string_of(&t))
}

// ---------------------------------------------------------------------------
// Reconnecting a library
// ---------------------------------------------------------------------------

/// A library can be moved to a new root unless it is being scanned.
pub fn reconnect_allowed(library: &Library) -> (r: Result<(), AppError>)
    ensures
        r is Ok <==> library.status != LibraryStatus::Scanning,
        r matches Err(e) ==> e matches AppError::Other(m) && m@ == "素材库正在扫描中，无法重新连接"@,
{
    if library.status == LibraryStatus::Scanning {
        return Err(AppError::Other("素材库正在扫描中，无法重新连接".to_string()));
    }
    Ok(())
}

/// Whether two of the rebased paths are the same.
pub fn has_duplicate(paths: &Vec<String>) -> (r: bool)
    ensures
        r == exists|a: int, b: int| 0 <= a < b < paths@.len() && #[trigger] paths@[a]@ == #[trigger] paths@[b]@,
{
    let n = paths.len();
    for i in 0..n
        invariant
            n == paths@.len(),
            forall|a: int, b: int| 0 <= a < b < n && a < i ==> #[trigger] paths@[a]@ != #[trigger] paths@[b]@,
    {
        let x = crate::text::chars_of(paths[i].as_str());
        for j in i + 1..n
            invariant
                n == paths@.len(),
                i < n,
                x@ == paths@[i as int]@,
                forall|a: int, b: int| 0 <= a < b < n && a < i ==> #[trigger] paths@[a]@ != #[trigger] paths@[b]@,
                forall|b: int| i < b < j ==> paths@[i as int]@ != #[trigger] paths@[b]@,
        {
            let y = crate::text::chars_of(paths[j].as_str());
            if crate::text::chars_eq(&x, &y) {
                assert(paths@[i as int]@ == paths@[j as int]@);
                return true;
            }
        }
    }
    false
}

/// The refusal when two assets would land on the same path.
pub fn duplicate_path_error() -> (r: AppError)
    ensures
        r matches AppError::Other(m) && m@ == "新素材库中存在无法安全区分的重复路径"@,
{
    AppError::Other("新素材库中存在无法安全区分的重复路径".to_string())
}

/// An asset found again under the library's new root: its path, name, size,
/// time and fingerprint follow the new file, and an offline asset is indexed
/// again; everything else is kept.
pub fn rebased_asset(
    asset: &Asset,
    file_path: String,
    normalized_path: String,
    file_name: String,
    size_bytes: i64,
    modified_at: i64,
    now: i64,
) -> (r: Asset)
    requires
        size_bytes >= 0,
    ensures
        r == (Asset {
            file_path,
            normalized_path,
            file_name,
            size_bytes,
            modified_at,
            quick_fingerprint: r.quick_fingerprint,
            status: if asset.status == AssetStatus::Offline { AssetStatus::Indexed } else { asset.status },
            updated_at: now,
            ..*asset
        }),
        r.quick_fingerprint@ == crate::scan::fingerprint_text(normalized_path@, size_bytes as nat, modified_at as int),
{
    let fingerprint = crate::scan::quick_fingerprint(normalized_path.as_str(), size_bytes as u64, modified_at);
    Asset {
        id: asset.id.clone(),
        library_id: asset.library_id.clone(),
        media_type: asset.media_type,
        file_path,
        normalized_path,
        file_name,
        extension: asset.extension.clone(),
        size_bytes,
        modified_at,
        quick_fingerprint: fingerprint,
        full_hash: asset.full_hash.clone(),
        duration_ms: asset.duration_ms,
        width: asset.width,
        height: asset.height,
        frame_rate: asset.frame_rate,
        codec: asset.codec.clone(),
        capture_time: asset.capture_time,
        status: if asset.status == AssetStatus::Offline { AssetStatus::Indexed } else { asset.status },
        index_level: asset.index_level,
        analysis_version: asset.analysis_version,
        created_at: asset.created_at,
        updated_at: now,
        thumbnail_data_url: asset.thumbnail_data_url.clone(),
    }
}

} // verus!
