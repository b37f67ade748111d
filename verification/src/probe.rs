//! Reading capture times and stream choices out of probed metadata: only
//! timestamps that carry their timezone become instants.

use vstd::prelude::*;

use crate::text::{chars_eq_ignore_ascii_case, chars_of, eq_ignore_ascii_case, push_str, string_of, trim_str, trimmed};

verus! {

// ---------------------------------------------------------------------------
// Names for chrono's parsers
// ---------------------------------------------------------------------------

/// Milliseconds since the Unix epoch of an RFC 3339 date-time, as
/// `chrono::DateTime::parse_from_rfc3339` reads it; `None` when it does not parse.
pub uninterp spec fn rfc3339_millis(s: Seq<char>) -> Option<i64>;

/// Milliseconds since the Unix epoch of `s` read with the strftime-style
/// `format`, as `chrono::DateTime::parse_from_str` reads it (a timezone is
/// required); `None` when it does not parse.
pub uninterp spec fn formatted_millis(s: Seq<char>, format: Seq<char>) -> Option<i64>;

/// `DateTime::parse_from_rfc3339(s)` then `timestamp_millis`.
#[verifier::external_body]
fn parse_rfc3339_millis(s: &str) -> (r: Option<i64>)
    ensures
        r == rfc3339_millis(s@),
{
    chrono::DateTime::parse_from_rfc3339(s).ok().map(|d| d.timestamp_millis())
}

/// `DateTime::parse_from_str(s, format)` then `timestamp_millis`.
#[verifier::external_body]
fn parse_formatted_millis(s: &str, format: &str) -> (r: Option<i64>)
    ensures
        r == formatted_millis(s@, format@),
{
    chrono::DateTime::parse_from_str(s, format).ok().map(|d| d.timestamp_millis())
}

// ---------------------------------------------------------------------------
// Container tags
// ---------------------------------------------------------------------------

/// A capture time from a container tag: the trimmed value read as RFC 3339.
pub fn parse_capture_time(value: &str) -> (r: Option<i64>)
    ensures
        r == rfc3339_millis(trimmed(value@)),
{
    let t = trim_str(value);
    let s = string_of(&t);
    parse_rfc3339_millis(s.as_str())
}

/// The value of the first tag whose key equals `key` up to ASCII case.
pub open spec fn tag_value_of(tags: Seq<(Seq<char>, Seq<char>)>, key: Seq<char>) -> Option<Seq<char>>
    decreases tags.len(),
{
    if tags.len() == 0 {
        None
    } else if eq_ignore_ascii_case(tags[0].0, key) {
        Some(tags[0].1)
    } else {
        tag_value_of(tags.drop_first(), key)
    }
}

pub open spec fn tags_view(tags: Seq<(String, String)>) -> Seq<(Seq<char>, Seq<char>)> {
    tags.map_values(|t: (String, String)| (t.0@, t.1@))
}

/// Looks a tag up by key, ignoring ASCII case.
pub fn tag_value(tags: &Vec<(String, String)>, key: &str) -> (r: Option<String>)
    ensures
        match r {
            Some(v) => tag_value_of(tags_view(tags@), key@) == Some(v@),
            None => tag_value_of(tags_view(tags@), key@) is None,
        },
{
    let k = chars_of(key);
    let n = tags.len();
    let ghost tv = tags_view(tags@);
    let mut i: usize = 0;
    assert(tv.skip(0) =~= tv);
    while i < n
        invariant
            n == tags@.len() == tv.len(),
            tv == tags_view(tags@),
            k@ == key@,
            i <= n,
            tag_value_of(tv, key@) == tag_value_of(tv.skip(i as int), key@),
        decreases n - i,
    {
        proof {
            assert(tv.skip(i as int).drop_first() =~= tv.skip(i + 1));
            assert(tv.skip(i as int)[0] == tv[i as int]);
        }
        let c = chars_of(tags[i].0.as_str());
        if chars_eq_ignore_ascii_case(&c, &k) {
            return Some(tags[i].1.clone());
        }
        i = i + 1;
    }
    None
}

pub open spec fn capture_keys() -> Seq<Seq<char>> {
    seq!["creation_time"@, "com.apple.quicktime.creationdate"@]
}

/// The capture time one tag set gives: `creation_time` first, then the
/// QuickTime creation date, each only when it reads as RFC 3339.
pub open spec fn group_capture_time(tags: Seq<(Seq<char>, Seq<char>)>) -> Option<i64> {
    let first = match tag_value_of(tags, capture_keys()[0]) {
        Some(v) => rfc3339_millis(trimmed(v)),
        None => None,
    };
    if first is Some {
        first
    } else {
        match tag_value_of(tags, capture_keys()[1]) {
            Some(v) => rfc3339_millis(trimmed(v)),
            None => None,
        }
    }
}

/// The first capture time found in the tag sets, in order (the container's
/// own tags first, then each stream's).
pub open spec fn capture_time_of(groups: Seq<Seq<(Seq<char>, Seq<char>)>>) -> Option<i64>
    decreases groups.len(),
{
    if groups.len() == 0 {
        None
    } else if group_capture_time(groups[0]) is Some {
        group_capture_time(groups[0])
    } else {
        capture_time_of(groups.drop_first())
    }
}

fn group_time(tags: &Vec<(String, String)>) -> (r: Option<i64>)
    ensures
        r == group_capture_time(tags_view(tags@)),
{
    let first = match tag_value(tags, "creation_time") {
        Some(v) => parse_capture_time(v.as_str()),
        None => None,
    };
    if first.is_some() {
        return first;
    }
    match tag_value(tags, "com.apple.quicktime.creationdate") {
        Some(v) => parse_capture_time(v.as_str()),
        None => None,
    }
}

/// The capture time of a probed file from its tag sets: the container's,
/// then each stream's. Other date tags are ignored rather than guessing a
/// timezone.
pub fn capture_time_from_tags(groups: &Vec<Vec<(String, String)>>) -> (r: Option<i64>)
    ensures
        r == capture_time_of(groups@.map_values(|g: Vec<(String, String)>| tags_view(g@))),
{
    let ghost gv = groups@.map_values(|g: Vec<(String, String)>| tags_view(g@));
    let n = groups.len();
    let mut i: usize = 0;
    assert(gv.skip(0) =~= gv);
    while i < n
        invariant
            n == groups@.len() == gv.len(),
            gv == groups@.map_values(|g: Vec<(String, String)>| tags_view(g@)),
            i <= n,
            capture_time_of(gv) == capture_time_of(gv.skip(i as int)),
        decreases n - i,
    {
        proof {
            assert(gv.skip(i as int).drop_first() =~= gv.skip(i + 1));
            assert(gv.skip(i as int)[0] == gv[i as int]);
        }
        let t = group_time(&groups[i]);
        if t.is_some() {
            return t;
        }
        i = i + 1;
    }
    None
}

/// Index of the first stream whose codec type is `video`.
pub fn first_video_stream(codec_types: &Vec<Option<String>>) -> (r: Option<usize>)
    ensures
        match r {
            Some(i) => i < codec_types@.len() && (codec_types@[i as int] matches Some(t) && t@ == "video"@)
                && forall|k: int| 0 <= k < i ==> !(#[trigger] codec_types@[k] matches Some(t) && t@ == "video"@),
            None => forall|k: int| 0 <= k < codec_types@.len() ==> !(#[trigger] codec_types@[k] matches Some(t) && t@ == "video"@),
        },
{
    let n = codec_types.len();
    for i in 0..n
        invariant
            n == codec_types@.len(),
            forall|k: int| 0 <= k < i ==> !(#[trigger] codec_types@[k] matches Some(t) && t@ == "video"@),
    {
        let hit = match &codec_types[i] {
            Some(t) => crate::text::str_eq(t.as_str(), "video"),
            None => false,
        };
        if hit {
            return Some(i);
        }
    }
    None
}

// ---------------------------------------------------------------------------
// EXIF
// ---------------------------------------------------------------------------

/// The strftime formats an EXIF time plus its offset is read with, in order.
pub open spec fn exif_formats() -> Seq<Seq<char>> {
    seq![
        "%Y:%m:%d %H:%M:%S%.f%:z"@,
        "%Y:%m:%d %H:%M:%S%:z"@,
        "%Y:%m:%d %H:%M:%S%.f%z"@,
        "%Y:%m:%d %H:%M:%S%z"@,
    ]
}

/// The first format that reads `value`, in order.
pub open spec fn first_formatted(value: Seq<char>, formats: Seq<Seq<char>>) -> Option<i64>
    decreases formats.len(),
{
    if formats.len() == 0 {
        None
    } else if formatted_millis(value, formats[0]) is Some {
        formatted_millis(value, formats[0])
    } else {
        first_formatted(value, formats.drop_first())
    }
}

/// An EXIF timestamp with its separate offset field, read as an instant.
pub fn parse_exif_timestamp(timestamp: &str, offset: &str) -> (r: Option<i64>)
    ensures
        r == first_formatted(timestamp@ + offset@, exif_formats()),
{
    let mut value = String::new();
    push_str(&mut value, timestamp);
    push_str(&mut value, offset);
    let formats: Vec<&str> = vec![
        "%Y:%m:%d %H:%M:%S%.f%:z",
        "%Y:%m:%d %H:%M:%S%:z",
        "%Y:%m:%d %H:%M:%S%.f%z",
        "%Y:%m:%d %H:%M:%S%z",
    ];
    let ghost fs = exif_formats();
    assert(formats@.map_values(|f: &str| f@) =~= fs);
    let n = formats.len();
    let mut i: usize = 0;
    assert(fs.skip(0) =~= fs);
    while i < n
        invariant
            n == formats@.len() == fs.len(),
            fs == exif_formats(),
            formats@.map_values(|f: &str| f@) == fs,
            value@ == timestamp@ + offset@,
            i <= n,
            first_formatted(value@, fs) == first_formatted(value@, fs.skip(i as int)),
        decreases n - i,
    {
        proof {
            assert(fs.skip(i as int).drop_first() =~= fs.skip(i + 1));
            assert(fs.skip(i as int)[0] == fs[i as int]);
            assert(fs[i as int] == formats@[i as int]@);
        }
        let t = parse_formatted_millis(value.as_str(), formats[i]);
        if t.is_some() {
            assert(first_formatted(value@, fs.skip(i as int)) == t);
            return t;
        }
        i = i + 1;
    }
    None
}

/// An EXIF ASCII field's text: its first value as UTF-8, trimmed, when
/// something is left.
pub fn ascii_field_text(first_value: &Option<String>) -> (r: Option<String>)
    ensures
        match first_value {
            Some(v) => if trimmed(v@).len() > 0 { r matches Some(t) && t@ == trimmed(v@) } else { r is None },
            None => r is None,
        },
{
    match first_value {
        Some(v) => {
            let t = trim_str(v.as_str());
            if t.len() == 0 { None } else { Some(string_of(&t)) }
        },
        None => None,
    }
}

/// The capture time of an image from its EXIF (time, offset) field pairs:
/// `DateTimeOriginal`, `DateTimeDigitized`, then `DateTime`; a time counts only
/// together with its offset field.
pub open spec fn exif_capture_time_of(pairs: Seq<(Option<Seq<char>>, Option<Seq<char>>)>) -> Option<i64>
    decreases pairs.len(),
{
    if pairs.len() == 0 {
        None
    } else {
        let here = match pairs[0] {
            (Some(t), Some(o)) => first_formatted(t + o, exif_formats()),
            _ => None,
        };
        if here is Some { here } else { exif_capture_time_of(pairs.drop_first()) }
    }
}

pub open spec fn pairs_view(pairs: Seq<(Option<String>, Option<String>)>) -> Seq<(Option<Seq<char>>, Option<Seq<char>>)> {
    pairs.map_values(|p: (Option<String>, Option<String>)| (
        match p.0 { Some(t) => Some(t@), None => None },
        match p.1 { Some(o) => Some(o@), None => None },
    ))
}

/// The first of the EXIF time pairs that reads as an instant.
pub fn exif_capture_time(pairs: &Vec<(Option<String>, Option<String>)>) -> (r: Option<i64>)
    ensures
        r == exif_capture_time_of(pairs_view(pairs@)),
{
    let ghost pv = pairs_view(pairs@);
    let n = pairs.len();
    let mut i: usize = 0;
    assert(pv.skip(0) =~= pv);
    while i < n
        invariant
            n == pairs@.len() == pv.len(),
            pv == pairs_view(pairs@),
            i <= n,
            exif_capture_time_of(pv) == exif_capture_time_of(pv.skip(i as int)),
        decreases n - i,
    {
        proof {
            assert(pv.skip(i as int).drop_first() =~= pv.skip(i + 1));
            assert(pv.skip(i as int)[0] == pv[i as int]);
        }
        let here = match &pairs[i] {
            (Some(t), Some(o)) => parse_exif_timestamp(t.as_str(), o.as_str()),
            _ => None,
        };
        if here.is_some() {
            return here;
        }
        i = i + 1;
    }
    None
}

} // verus!
