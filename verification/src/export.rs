//! Export formats for asset lists and selects: CSV, EDL, FCPXML, the HTML
//! contact sheet, JSON records and the PNG contact-sheet layout, with the
//! timecode, escaping, URL and base64 helpers they share.

use vstd::prelude::*;
use vstd::string::StringSliceAdditionalSpecFns;

use crate::cache::{cache_file, CacheManager};
use crate::errors::AppError;
use crate::models::{Asset, FrameRate, MediaType, SelectItem};
use crate::text::{
    chars_of, decimal, push_char, push_decimal, push_str, push_zero_padded, zero_padded,
    eq_ignore_ascii_case, chars_eq_ignore_ascii_case,
};

verus! {

// ---------------------------------------------------------------------------
// Timecodes
// ---------------------------------------------------------------------------

/// `HH:MM:SS.mmm` for a time in milliseconds; negative times count as zero
/// and hours are not wrapped.
pub open spec fn timecode_text(ms: int) -> Seq<char> {
    let m: nat = if ms < 0 { 0 } else { ms as nat };
    let total: nat = m / 1000;
    zero_padded(total / 3600, 2) + seq![':'] + zero_padded((total / 60) % 60, 2) + seq![':']
        + zero_padded(total % 60, 2) + seq!['.'] + zero_padded(m % 1000, 3)
}

/// Formats milliseconds as `HH:MM:SS.mmm`.
pub fn timecode(milliseconds: i64) -> (r: String)
    ensures
        r@ == timecode_text(milliseconds as int),
{
    let m: u64 = if milliseconds < 0 { 0 } else { milliseconds as u64 };
    let total = m / 1000;
    let mut out = String::new();
    push_zero_padded(&mut out, total / 3600, 2);
    push_char(&mut out, ':');
    push_zero_padded(&mut out, (total / 60) % 60, 2);
    push_char(&mut out, ':');
    push_zero_padded(&mut out, total % 60, 2);
    push_char(&mut out, '.');
    push_zero_padded(&mut out, m % 1000, 3);
    out
}

/// `HH:MM:SS:FF` at 30 frames per second for a frame count; negative counts
/// are zero.
pub open spec fn edl_timecode_text(frames: int) -> Seq<char> {
    let f: nat = if frames < 0 { 0 } else { frames as nat };
    let total: nat = f / 30;
    zero_padded(total / 3600, 2) + seq![':'] + zero_padded((total / 60) % 60, 2) + seq![':']
        + zero_padded(total % 60, 2) + seq![':'] + zero_padded(f % 30, 2)
}

/// Formats a frame count as a 30 fps non-drop-frame EDL timecode.
pub fn frames_to_edl_timecode(frames: i64) -> (r: String)
    ensures
        r@ == edl_timecode_text(frames as int),
{
    let f: u64 = if frames < 0 { 0 } else { frames as u64 };
    let total = f / 30;
    let mut out = String::new();
    push_zero_padded(&mut out, total / 3600, 2);
    push_char(&mut out, ':');
    push_zero_padded(&mut out, (total / 60) % 60, 2);
    push_char(&mut out, ':');
    push_zero_padded(&mut out, total % 60, 2);
    push_char(&mut out, ':');
    push_zero_padded(&mut out, f % 30, 2);
    out
}

// ---------------------------------------------------------------------------
// Escaping
// ---------------------------------------------------------------------------

/// A CSV field body: every double quote doubled.
pub open spec fn csv_doubled(s: Seq<char>) -> Seq<char>
    decreases s.len(),
{
    if s.len() == 0 {
        s
    } else {
        csv_doubled(s.drop_last()) + if s.last() == '"' { seq!['"', '"'] } else { seq![s.last()] }
    }
}

/// A CSV field: quoted, with inner quotes doubled.
pub open spec fn csv_field(s: Seq<char>) -> Seq<char> {
    seq!['"'] + csv_doubled(s) + seq!['"']
}

/// Quotes a CSV field.
pub fn csv_escape(value: &str) -> (r: String)
    ensures
        r@ == csv_field(value@),
{
    let cs = chars_of(value);
    let mut out = String::new();
    push_char(&mut out, '"');
    let n = cs.len();
    for i in 0..n
        invariant
            n == cs@.len() == value@.len(),
            cs@ == value@,
            out@ == seq!['"'] + csv_doubled(value@.take(i as int)),
    {
        assert(value@.take(i + 1).drop_last() =~= value@.take(i as int));
        if cs[i] == '"' {
            push_char(&mut out, '"');
            push_char(&mut out, '"');
        } else {
            push_char(&mut out, cs[i]);
        }
        assert(out@ =~= seq!['"'] + csv_doubled(value@.take(i + 1)));
    }
    assert(value@.take(n as int) =~= value@);
    push_char(&mut out, '"');
    out
}

/// The XML/HTML entity for one character, or the character itself.
pub open spec fn markup_char(c: char) -> Seq<char> {
    if c == '&' {
        "&amp;"@
    } else if c == '"' {
        "&quot;"@
    } else if c == '<' {
        "&lt;"@
    } else if c == '>' {
        "&gt;"@
    } else {
        seq![c]
    }
}

/// `s` with `&`, `"`, `<` and `>` replaced by their entities.
pub open spec fn markup_escaped(s: Seq<char>) -> Seq<char>
    decreases s.len(),
{
    if s.len() == 0 {
        s
    } else {
        markup_escaped(s.drop_last()) + markup_char(s.last())
    }
}

fn push_markup_escaped(out: &mut String, value: &str)
    ensures
        final(out)@ == old(out)@ + markup_escaped(value@),
{
    let cs = chars_of(value);
    let n = cs.len();
    let ghost start = out@;
    for i in 0..n
        invariant
            n == cs@.len() == value@.len(),
            cs@ == value@,
            out@ == start + markup_escaped(value@.take(i as int)),
    {
        assert(value@.take(i + 1).drop_last() =~= value@.take(i as int));
        let c = cs[i];
        if c == '&' {
            push_str(out, "&amp;");
        } else if c == '"' {
            push_str(out, "&quot;");
        } else if c == '<' {
            push_str(out, "&lt;");
        } else if c == '>' {
            push_str(out, "&gt;");
        } else {
            push_char(out, c);
        }
        assert(out@ =~= start + markup_escaped(value@.take(i + 1)));
    }
    assert(value@.take(n as int) =~= value@);
}

/// Escapes a value for an XML attribute.
pub fn xml_escape(value: &str) -> (r: String)
    ensures
        r@ == markup_escaped(value@),
{
    let mut out = String::new();
    push_markup_escaped(&mut out, value);
    out
}

/// Escapes a value for HTML text or attributes.
pub fn html_escape(value: &str) -> (r: String)
    ensures
        r@ == markup_escaped(value@),
{
    let mut out = String::new();
    push_markup_escaped(&mut out, value);
    out
}

// ---------------------------------------------------------------------------
// file:// URLs
// ---------------------------------------------------------------------------

/// Bytes kept as they are in a file URL.
pub open spec fn url_unreserved(b: u8) -> bool {
    ||| 0x30 <= b <= 0x39
    ||| 0x41 <= b <= 0x5A
    ||| 0x61 <= b <= 0x7A
    ||| b == 0x2D || b == 0x2E || b == 0x5F || b == 0x7E || b == 0x2F || b == 0x3A
}

/// Upper-case hexadecimal digit.
pub open spec fn hex_digit(d: int) -> char {
    if d < 10 {
        (0x30 + d) as char
    } else {
        (0x41 + d - 10) as char
    }
}

/// How one UTF-8 byte of the path appears in the URL: backslashes become
/// slashes, unreserved bytes stay, everything else is percent-encoded.
pub open spec fn url_byte(b: u8) -> Seq<char> {
    if b == 0x5C {
        seq!['/']
    } else if url_unreserved(b) {
        seq![b as char]
    } else {
        seq!['%', hex_digit((b / 16) as int), hex_digit((b % 16) as int)]
    }
}

pub open spec fn url_encoded(bs: Seq<u8>) -> Seq<char>
    decreases bs.len(),
{
    if bs.len() == 0 {
        Seq::empty()
    } else {
        url_encoded(bs.drop_last()) + url_byte(bs.last())
    }
}

/// The `file:///` URL of a path, over the UTF-8 bytes of the path.
pub open spec fn file_url_text(bytes: Seq<u8>) -> Seq<char> {
    "file:///"@ + url_encoded(bytes)
}

fn hex_char(d: u8) -> (c: char)
    requires
        d < 16,
    ensures
        c == hex_digit(d as int),
{
    if d < 10 {
        (0x30u8 + d) as char
    } else {
        (0x41u8 + d - 10) as char
    }
}

/// The `file:///` URL of a local path, with Windows separators turned into
/// slashes and every byte outside `A-Z a-z 0-9 - . _ ~ / :` percent-encoded.
pub fn file_url(path: &str) -> (r: String)
    ensures
        r@ == file_url_text(path.spec_bytes()),
{
    let bytes = path.as_bytes();
    let mut out = String::new();
    push_str(&mut out, "file:///");
    let ghost start = out@;
    let ghost bs = path.spec_bytes();
    let n = bytes.len();
    for i in 0..n
        invariant
            n == bs.len(),
            bytes@ == bs,
            out@ == start + url_encoded(bs.take(i as int)),
    {
        let b = bytes[i];
        assert(bs.take(i + 1).drop_last() =~= bs.take(i as int));
        assert(bs.take(i + 1).last() == b);
        if b == 0x5C {
            push_char(&mut out, '/');
        } else if (0x30 <= b && b <= 0x39) || (0x41 <= b && b <= 0x5A) || (0x61 <= b && b <= 0x7A)
            || b == 0x2D || b == 0x2E || b == 0x5F || b == 0x7E || b == 0x2F || b == 0x3A {
            push_char(&mut out, b as char);
        } else {
            push_char(&mut out, '%');
            push_char(&mut out, hex_char(b / 16));
            push_char(&mut out, hex_char(b % 16));
        }
        assert(out@ =~= start + url_encoded(bs.take(i + 1)));
    }
    assert(bs.take(n as int) =~= bs);
    out
}

// ---------------------------------------------------------------------------
// Base64
// ---------------------------------------------------------------------------

/// The standard base64 alphabet: `A-Z a-z 0-9 + /`.
pub open spec fn b64_digit(v: int) -> char {
    if v < 26 {
        (0x41 + v) as char
    } else if v < 52 {
        (0x61 + v - 26) as char
    } else if v < 62 {
        (0x30 + v - 52) as char
    } else if v == 62 {
        '+'
    } else {
        '/'
    }
}

/// The four characters for one group of one to three bytes, padded with `=`.
pub open spec fn b64_group(g: Seq<u8>) -> Seq<char> {
    let b0 = g[0] as int;
    let b1 = if g.len() > 1 { g[1] as int } else { 0 };
    let b2 = if g.len() > 2 { g[2] as int } else { 0 };
    seq![
        b64_digit(b0 / 4),
        b64_digit((b0 % 4) * 16 + b1 / 16),
        if g.len() > 1 { b64_digit((b1 % 16) * 4 + b2 / 64) } else { '=' },
        if g.len() > 2 { b64_digit(b2 % 64) } else { '=' },
    ]
}

/// Padded standard base64 of a byte string.
pub open spec fn base64_text(bytes: Seq<u8>) -> Seq<char>
    decreases bytes.len(),
{
    if bytes.len() == 0 {
        Seq::empty()
    } else if bytes.len() <= 3 {
        b64_group(bytes)
    } else {
        b64_group(bytes.take(3)) + base64_text(bytes.skip(3))
    }
}

proof fn lemma_base64_append(a: Seq<u8>, g: Seq<u8>)
    requires
        a.len() % 3 == 0,
        1 <= g.len() <= 3,
    ensures
        base64_text(a + g) == base64_text(a) + b64_group(g),
    decreases a.len(),
{
    if a.len() == 0 {
        assert(a + g =~= g);
    } else {
        assert((a + g).take(3) =~= a.take(3));
        assert((a + g).skip(3) =~= a.skip(3) + g);
        lemma_base64_append(a.skip(3), g);
        if a.len() == 3 {
            assert(a.skip(3) =~= Seq::<u8>::empty());
            assert(a.skip(3) + g =~= g);
            assert(a.take(3) =~= a);
        }
    }
}

pub proof fn lemma_base64_len(bytes: Seq<u8>)
    ensures
        base64_text(bytes).len() == 4 * ((bytes.len() + 2) / 3),
    decreases bytes.len(),
{
    if bytes.len() > 3 {
        lemma_base64_len(bytes.skip(3));
    }
}

fn b64_char(v: u8) -> (c: char)
    requires
        v < 64,
    ensures
        c == b64_digit(v as int),
{
    if v < 26 {
        (0x41u8 + v) as char
    } else if v < 52 {
        (0x61u8 + v - 26) as char
    } else if v < 62 {
        (0x30u8 + v - 52) as char
    } else if v == 62 {
        '+'
    } else {
        '/'
    }
}

/// Standard padded base64 of `bytes`.
pub fn base64_encode(bytes: &[u8]) -> (r: String)
    ensures
        r@ == base64_text(bytes@),
{
    let n = bytes.len();
    let mut out = String::new();
    let mut i: usize = 0;
    while i < n
        invariant
            n == bytes@.len(),
            i <= n,
            i % 3 == 0 || i == n,
            out@ == base64_text(bytes@.take(i as int)),
        decreases n - i,
    {
        let len: usize = if n - i >= 3 { 3 } else { n - i };
        let b0 = bytes[i];
        let b1: u8 = if len > 1 { bytes[i + 1] } else { 0 };
        let b2: u8 = if len > 2 { bytes[i + 2] } else { 0 };
        let ghost g = bytes@.subrange(i as int, i + len);
        push_char(&mut out, b64_char(b0 / 4));
        push_char(&mut out, b64_char((b0 % 4) * 16 + b1 / 16));
        if len > 1 {
            push_char(&mut out, b64_char((b1 % 16) * 4 + b2 / 64));
        } else {
            push_char(&mut out, '=');
        }
        if len > 2 {
            push_char(&mut out, b64_char(b2 % 64));
        } else {
            push_char(&mut out, '=');
        }
        proof {
            assert(bytes@.take(i + len) =~= bytes@.take(i as int) + g);
            lemma_base64_append(bytes@.take(i as int), g);
            assert(b64_group(g) =~= seq![
                b64_digit((b0 / 4) as int),
                b64_digit(((b0 % 4) * 16 + b1 / 16) as int),
                if len > 1 { b64_digit(((b1 % 16) * 4 + b2 / 64) as int) } else { '=' },
                if len > 2 { b64_digit((b2 % 64) as int) } else { '=' },
            ]);
        }
        i = i + len;
    }
    assert(bytes@.take(n as int) =~= bytes@);
    out
}

/// The image MIME type for a thumbnail file extension: PNG and WebP by
/// name (any case), JPEG otherwise.
pub open spec fn thumbnail_mime(ext: Seq<char>) -> Seq<char> {
    if eq_ignore_ascii_case(ext, "png"@) {
        "image/png"@
    } else if eq_ignore_ascii_case(ext, "webp"@) {
        "image/webp"@
    } else {
        "image/jpeg"@
    }
}

/// A `data:` URI that embeds thumbnail bytes, typed by the file extension.
pub fn data_uri(extension: &str, bytes: &[u8]) -> (r: String)
    ensures
        r@ == "data:"@ + thumbnail_mime(extension@) + ";base64,"@ + base64_text(bytes@),
{
    let e = chars_of(extension);
    let png = chars_of("png");
    let webp = chars_of("webp");
    let mut out = String::new();
    push_str(&mut out, "data:");
    if chars_eq_ignore_ascii_case(&e, &png) {
        push_str(&mut out, "image/png");
    } else if chars_eq_ignore_ascii_case(&e, &webp) {
        push_str(&mut out, "image/webp");
    } else {
        push_str(&mut out, "image/jpeg");
    }
    push_str(&mut out, ";base64,");
    let encoded = base64_encode(bytes);
    push_str(&mut out, encoded.as_str());
    out
}

// ---------------------------------------------------------------------------
// FCPXML values
// ---------------------------------------------------------------------------

/// A rational FCPXML time in milliseconds; negative times count as zero.
pub open spec fn fcpx_duration_text(ms: int) -> Seq<char> {
    decimal(if ms < 0 { 0 } else { ms as nat }) + "/1000s"@
}

/// Formats milliseconds as an FCPXML time.
pub fn fcpx_duration(milliseconds: i64) -> (r: String)
    ensures
        r@ == fcpx_duration_text(milliseconds as int),
{
    let mut out = String::new();
    push_decimal(&mut out, if milliseconds < 0 { 0 } else { milliseconds as u64 });
    push_str(&mut out, "/1000s");
    out
}

/// The FCPXML frame duration of a frame rate: exact NTSC fractions for the
/// three NTSC rates, `1/Ns` otherwise.
pub open spec fn frame_duration_text(rate: FrameRate) -> Seq<char> {
    match rate {
        FrameRate::Ntsc24 => "1001/24000s"@,
        FrameRate::Ntsc30 => "1001/30000s"@,
        FrameRate::Ntsc60 => "1001/60000s"@,
        FrameRate::Whole(n) => "1/"@ + decimal(n as nat) + "s"@,
    }
}

/// Formats the FCPXML frame duration of a frame rate.
pub fn fcpx_frame_duration(rate: FrameRate) -> (r: String)
    ensures
        r@ == frame_duration_text(rate),
{
    let mut out = String::new();
    match rate {
        FrameRate::Ntsc24 => push_str(&mut out, "1001/24000s"),
        FrameRate::Ntsc30 => push_str(&mut out, "1001/30000s"),
        FrameRate::Ntsc60 => push_str(&mut out, "1001/60000s"),
        FrameRate::Whole(n) => {
            push_str(&mut out, "1/");
            push_decimal(&mut out, n as u64);
            push_str(&mut out, "s");
        },
    }
    out
}

/// The media-kind attributes of an FCPXML asset.
pub open spec fn media_attributes_text(m: MediaType) -> Seq<char> {
    match m {
        MediaType::Audio => "hasAudio=\"1\""@,
        MediaType::Image => "hasVideo=\"1\""@,
        MediaType::Video => "hasVideo=\"1\" hasAudio=\"1\""@,
    }
}

/// The media-kind attributes of an FCPXML asset.
pub fn fcpx_media_attributes(media_type: MediaType) -> (r: &'static str)
    ensures
        r@ == media_attributes_text(media_type),
{
    match media_type {
        MediaType::Audio => "hasAudio=\"1\"",
        MediaType::Image => "hasVideo=\"1\"",
        MediaType::Video => "hasVideo=\"1\" hasAudio=\"1\"",
    }
}

// ---------------------------------------------------------------------------
// Select ranges
// ---------------------------------------------------------------------------

/// The exported range of a select item, in milliseconds: the recommended
/// in/out points first, then the segment's span, then the whole asset; the
/// end is never before the start.
pub open spec fn select_range_of(item: SelectItem) -> (int, int) {
    let start: int = match item.recommended_in_ms {
        Some(v) => v as int,
        None => match item.segment {
            Some(seg) => seg.start_ms as int,
            None => 0,
        },
    };
    let end: int = match item.recommended_out_ms {
        Some(v) => v as int,
        None => match item.segment {
            Some(seg) => seg.end_ms as int,
            None => match item.asset.duration_ms {
                Some(d) => d as int,
                None => 0,
            },
        },
    };
    (start, if end < start { start } else { end })
}

/// The exported range of a select item.
pub fn select_range(item: &SelectItem) -> (r: (i64, i64))
    ensures
        (r.0 as int, r.1 as int) == select_range_of(*item),
        r.0 <= r.1,
{
    let start = match item.recommended_in_ms {
        Some(v) => v,
        None => match &item.segment {
            Some(seg) => seg.start_ms,
            None => 0,
        },
    };
    let end = match item.recommended_out_ms {
        Some(v) => v,
        None => match &item.segment {
            Some(seg) => seg.end_ms,
            None => match item.asset.duration_ms {
                Some(d) => d,
                None => 0,
            },
        },
    };
    (start, if end < start { start } else { end })
}

// ---------------------------------------------------------------------------
// Output file extension
// ---------------------------------------------------------------------------

/// The part of `s` after its last `c` (all of `s` when `c` does not occur).
pub open spec fn after_last(s: Seq<char>, c: char) -> Seq<char>
    decreases s.len(),
{
    if s.len() == 0 {
        s
    } else if s.last() == c {
        Seq::empty()
    } else {
        after_last(s.drop_last(), c).push(s.last())
    }
}

/// Whether `c` separates path components on some platform.
pub open spec fn any_separator(c: char) -> bool {
    c == '/' || c == '\\'
}

/// The part of `s` after its last `/` or `\` (all of `s` when it has neither).
pub open spec fn after_last_separator(s: Seq<char>) -> Seq<char>
    decreases s.len(),
{
    if s.len() == 0 {
        s
    } else if any_separator(s.last()) {
        Seq::empty()
    } else {
        after_last_separator(s.drop_last()).push(s.last())
    }
}

/// The extension of a path that every platform reads alike: the piece after
/// the last `/` or `\` is not empty, does not start with a dot but holds
/// one, and is not a bare prefix (it follows a separator or holds no `:`),
/// and the path does not start with two separators (no UNC, device or
/// verbatim prefix). The extension is the text after the piece's last dot.
pub open spec fn portable_extension(path: Seq<char>) -> Option<Seq<char>> {
    let name = after_last_separator(path);
    if name.len() > 0 && name[0] != '.' && name.contains('.') && (name.len() < path.len() || !name.contains(':'))
        && !(path.len() >= 2 && any_separator(path[0]) && any_separator(path[1])) {
        Some(after_last(name, '.'))
    } else {
        None
    }
}

/// `Path::extension` of a path, as text. By `std`'s documentation the
/// extension is the part of the final component after its last dot, unless
/// that component starts with its only dot, and `/` separates components
/// except in verbatim (`\\?\`) paths, which start with backslashes. The
/// contract claims that an extension found is a dot-prefixed piece of the
/// path with no dot in it (and no `/` when the path has no backslash), and
/// which piece it is for paths that every platform splits alike
/// (`portable_extension`); how the others split depends on the platform's
/// separators and prefixes, so nothing more is claimed of them.
#[verifier::external_body]
pub(crate) fn path_extension(path: &str) -> (r: Option<String>)
    ensures
        r matches Some(e) ==> !e@.contains('.') && (!path@.contains('\\') ==> !e@.contains('/'))
            && crate::text::has_substring(path@, seq!['.'] + e@),
        portable_extension(path@) is Some ==> r is Some && r->0@ == portable_extension(path@)->0,
{
    std::path::Path::new(path).extension().and_then(|e| e.to_str()).map(|e| e.to_string())
}

/// The refusal for an export file without the expected extension.
pub open spec fn extension_refusal(extension: Seq<char>) -> Seq<char> {
    "导出文件必须使用 ."@ + extension + " 扩展名"@
}

/// Accepts the extension found on an output path when it equals the
/// expected one up to ASCII case.
pub fn check_extension(found: Option<String>, extension: &str) -> (r: Result<(), AppError>)
    ensures
        r is Ok <==> (found matches Some(e) && eq_ignore_ascii_case(e@, extension@)),
        r matches Err(e) ==> e matches AppError::Other(m) && m@ == extension_refusal(extension@),
{
    let ok = match &found {
        Some(e) => {
            let a = chars_of(e.as_str());
            let b = chars_of(extension);
            chars_eq_ignore_ascii_case(&a, &b)
        },
        None => false,
    };
    if ok {
        Ok(())
    } else {
        let mut m = String::new();
        push_str(&mut m, "导出文件必须使用 .");
        push_str(&mut m, extension);
        push_str(&mut m, " 扩展名");
        Err(AppError::Other(m))
    }
}

/// Refuses an export path whose extension is not `extension` (any ASCII case).
pub fn require_extension(path: &str, extension: &str) -> (r: Result<(), AppError>)
    ensures
        portable_extension(path@) is Some ==> (r is Ok <==> eq_ignore_ascii_case(
            portable_extension(path@)->0,
            extension@,
        )),
        r is Ok ==> exists|e: Seq<char>|
            eq_ignore_ascii_case(e, extension@) && !e.contains('.') && crate::text::has_substring(path@, seq!['.'] + e),
        r matches Err(e) ==> e matches AppError::Other(m) && m@ == extension_refusal(extension@),
{
    let found = path_extension(path);
    let ghost f = found;
    let r = check_extension(found, extension);
    proof {
        if r is Ok {
            let e = f->0;
            assert(eq_ignore_ascii_case(e@, extension@) && !e@.contains('.')
                && crate::text::has_substring(path@, seq!['.'] + e@));
        }
    }
    r
}

// ---------------------------------------------------------------------------
// CSV documents
// ---------------------------------------------------------------------------

pub open spec fn assets_csv_header() -> Seq<char> {
    "file_name,file_path,media_type,duration_ms,start_timecode,end_timecode\r\n"@
}

pub open spec fn duration_or_zero(a: Asset) -> int {
    match a.duration_ms {
        Some(d) => d as int,
        None => 0,
    }
}

/// One CSV line for an asset: quoted name and path, media type, duration,
/// and the timecodes of its start and end.
pub open spec fn asset_csv_row(a: Asset) -> Seq<char> {
    csv_field(a.file_name@) + seq![','] + csv_field(a.file_path@) + seq![','] + a.media_type.name()
        + seq![','] + crate::text::signed_decimal(duration_or_zero(a)) + seq![','] + timecode_text(0)
        + seq![','] + timecode_text(duration_or_zero(a)) + "\r\n"@
}

pub open spec fn assets_csv_rows(assets: Seq<Asset>) -> Seq<char>
    decreases assets.len(),
{
    if assets.len() == 0 {
        Seq::empty()
    } else {
        assets_csv_rows(assets.drop_last()) + asset_csv_row(assets.last())
    }
}

#[verifier::spinoff_prover]
fn push_asset_csv_row(out: &mut String, a: &Asset)
    ensures
        final(out)@ == old(out)@ + asset_csv_row(*a),
{
    let duration: i64 = match a.duration_ms {
        Some(d) => d,
        None => 0,
    };
    let mut row = csv_escape(a.file_name.as_str());
    push_char(&mut row, ',');
    let path = csv_escape(a.file_path.as_str());
    push_str(&mut row, path.as_str());
    push_char(&mut row, ',');
    push_str(&mut row, a.media_type.as_str());
    push_char(&mut row, ',');
    let ghost head = row@;
    assert(head =~= csv_field(a.file_name@) + seq![','] + csv_field(a.file_path@) + seq![','] + a.media_type.name()
        + seq![',']);
    crate::text::push_signed(&mut row, duration);
    push_char(&mut row, ',');
    let t0 = timecode(0);
    push_str(&mut row, t0.as_str());
    push_char(&mut row, ',');
    let t1 = timecode(duration);
    push_str(&mut row, t1.as_str());
    push_str(&mut row, "\r\n");
    assert(row@ =~= head + crate::text::signed_decimal(duration_or_zero(*a)) + seq![','] + timecode_text(0)
        + seq![','] + timecode_text(duration_or_zero(*a)) + "\r\n"@);
    assert(row@ =~= asset_csv_row(*a));
    push_str(out, row.as_str());
}

/// The CSV export of an asset list.
#[verifier::spinoff_prover]
pub fn assets_csv(assets: &Vec<Asset>) -> (r: String)
    ensures
        r@ == assets_csv_header() + assets_csv_rows(assets@),
{
    let mut out = String::new();
    push_str(&mut out, "file_name,file_path,media_type,duration_ms,start_timecode,end_timecode\r\n");
    let n = assets.len();
    for i in 0..n
        invariant
            n == assets@.len(),
            out@ == assets_csv_header() + assets_csv_rows(assets@.take(i as int)),
    {
        assert(assets@.take(i + 1).drop_last() =~= assets@.take(i as int));
        push_asset_csv_row(&mut out, &assets[i]);
    }
    assert(assets@.take(n as int) =~= assets@);
    out
}

pub open spec fn select_csv_header() -> Seq<char> {
    "file_name,file_path,media_type,start_timecode,end_timecode,rating,note\r\n"@
}

pub open spec fn rating_text(r: Option<i32>) -> Seq<char> {
    match r {
        Some(v) => crate::text::signed_decimal(v as int),
        None => Seq::empty(),
    }
}

pub open spec fn note_or_empty(n: Option<String>) -> Seq<char> {
    match n {
        Some(v) => v@,
        None => Seq::empty(),
    }
}

/// One CSV line for a select item: quoted name and path, media type, the
/// timecodes of its exported range, rating and quoted note.
pub open spec fn select_csv_row(item: SelectItem) -> Seq<char> {
    let (start, end) = select_range_of(item);
    csv_field(item.asset.file_name@) + seq![','] + csv_field(item.asset.file_path@) + seq![',']
        + item.asset.media_type.name() + seq![','] + timecode_text(start) + seq![','] + timecode_text(end)
        + seq![','] + rating_text(item.rating) + seq![','] + csv_field(note_or_empty(item.note)) + "\r\n"@
}

pub open spec fn select_csv_rows(items: Seq<SelectItem>) -> Seq<char>
    decreases items.len(),
{
    if items.len() == 0 {
        Seq::empty()
    } else {
        select_csv_rows(items.drop_last()) + select_csv_row(items.last())
    }
}

#[verifier::spinoff_prover]
fn push_select_csv_row(out: &mut String, item: &SelectItem)
    ensures
        final(out)@ == old(out)@ + select_csv_row(*item),
{
    let (start, end) = select_range(item);
    let mut row = csv_escape(item.asset.file_name.as_str());
    push_char(&mut row, ',');
    let path = csv_escape(item.asset.file_path.as_str());
    push_str(&mut row, path.as_str());
    push_char(&mut row, ',');
    push_str(&mut row, item.asset.media_type.as_str());
    push_char(&mut row, ',');
    let ghost head = row@;
    assert(head =~= csv_field(item.asset.file_name@) + seq![','] + csv_field(item.asset.file_path@) + seq![',']
        + item.asset.media_type.name() + seq![',']);
    let t0 = timecode(start);
    push_str(&mut row, t0.as_str());
    push_char(&mut row, ',');
    let t1 = timecode(end);
    push_str(&mut row, t1.as_str());
    push_char(&mut row, ',');
    let ghost mid = row@;
    assert(mid =~= head + timecode_text(start as int) + seq![','] + timecode_text(end as int) + seq![',']);
    match item.rating {
        Some(v) => crate::text::push_signed(&mut row, v as i64),
        None => {},
    }
    push_char(&mut row, ',');
    let note = match &item.note {
        Some(v) => csv_escape(v.as_str()),
        None => csv_escape(""),
    };
    proof {
        if item.note is None {
            reveal_strlit("");
            assert(""@ =~= Seq::<char>::empty());
        }
    }
    assert(note@ == csv_field(note_or_empty(item.note)));
    push_str(&mut row, note.as_str());
    push_str(&mut row, "\r\n");
    assert(row@ =~= mid + rating_text(item.rating) + seq![','] + csv_field(note_or_empty(item.note)) + "\r\n"@);
    assert(row@ =~= select_csv_row(*item));
    push_str(out, row.as_str());
}

/// The CSV export of select items.
#[verifier::spinoff_prover]
pub fn select_items_csv(items: &Vec<SelectItem>) -> (r: String)
    ensures
        r@ == select_csv_header() + select_csv_rows(items@),
{
    let mut out = String::new();
    push_str(&mut out, "file_name,file_path,media_type,start_timecode,end_timecode,rating,note\r\n");
    let n = items.len();
    for i in 0..n
        invariant
            n == items@.len(),
            out@ == select_csv_header() + select_csv_rows(items@.take(i as int)),
    {
        assert(items@.take(i + 1).drop_last() =~= items@.take(i as int));
        push_select_csv_row(&mut out, &items[i]);
    }
    assert(items@.take(n as int) =~= items@);
    out
}

// ---------------------------------------------------------------------------
// EDL
// ---------------------------------------------------------------------------

/// One event of an EDL: the clip name, its first source frame, and its
/// length in frames (both counted from milliseconds at 30 fps by the
/// caller). An event lasts at least one frame.
#[derive(Debug, Clone)]
pub struct EdlClip {
    pub name: String,
    pub source_in: i64,
    pub frames: i64,
}

pub open spec fn clip_frames(c: EdlClip) -> int {
    if c.frames < 1 { 1 } else { c.frames as int }
}

/// Frames the events take on the record timeline together.
pub open spec fn edl_total(cs: Seq<EdlClip>) -> int
    decreases cs.len(),
{
    if cs.len() == 0 { 0 } else { edl_total(cs.drop_last()) + clip_frames(cs.last()) }
}

pub open spec fn edl_header() -> Seq<char> {
    "TITLE: SceneWeaver Selects\r\nFCM: NON-DROP FRAME\r\n\r\n"@
}

/// The event line for clip number `index` (from zero) placed at `record_in`
/// on the record timeline.
pub open spec fn edl_event(index: int, c: EdlClip, record_in: int) -> Seq<char> {
    zero_padded((index + 1) as nat, 3) + "  AX       V     C        "@ + edl_timecode_text(c.source_in as int)
        + seq![' '] + edl_timecode_text(c.source_in + clip_frames(c)) + seq![' '] + edl_timecode_text(record_in)
        + seq![' '] + edl_timecode_text(record_in + clip_frames(c)) + "\r\n* FROM CLIP NAME: "@ + c.name@
        + "\r\n\r\n"@
}

/// The events, each starting where the previous one ended.
pub open spec fn edl_events(cs: Seq<EdlClip>) -> Seq<char>
    decreases cs.len(),
{
    if cs.len() == 0 {
        Seq::empty()
    } else {
        edl_events(cs.drop_last()) + edl_event(cs.len() - 1, cs.last(), edl_total(cs.drop_last()))
    }
}

/// The frame counts are not negative and every timecode fits in `i64`.
pub open spec fn edl_fits(cs: Seq<EdlClip>) -> bool {
    &&& forall|k: int| 0 <= k < cs.len() ==> 0 <= #[trigger] cs[k].source_in && 0 <= cs[k].frames
        && cs[k].source_in + clip_frames(cs[k]) <= i64::MAX
    &&& edl_total(cs) <= i64::MAX
}

pub proof fn lemma_edl_total_prefix(cs: Seq<EdlClip>, i: int)
    requires
        0 <= i <= cs.len(),
    ensures
        0 <= edl_total(cs.take(i)) <= edl_total(cs),
    decreases cs.len(),
{
    if cs.len() > 0 {
        if i == cs.len() {
            assert(cs.take(i) =~= cs);
            lemma_edl_total_prefix(cs.drop_last(), cs.len() - 1);
            assert(cs.drop_last().take(cs.len() - 1) =~= cs.drop_last());
        } else {
            lemma_edl_total_prefix(cs.drop_last(), i);
            assert(cs.drop_last().take(i) =~= cs.take(i));
        }
    }
}

proof fn lemma_edl_step(cs: Seq<EdlClip>, i: int)
    requires
        0 <= i < cs.len(),
        edl_fits(cs),
    ensures
        cs.take(i + 1).drop_last() == cs.take(i),
        cs.take(i + 1).last() == cs[i],
        0 <= cs[i].source_in,
        cs[i].source_in + clip_frames(cs[i]) <= i64::MAX,
        0 <= edl_total(cs.take(i)),
        edl_total(cs.take(i)) + clip_frames(cs[i]) == edl_total(cs.take(i + 1)) <= i64::MAX,
{
    assert(cs.take(i + 1).drop_last() =~= cs.take(i));
    lemma_edl_total_prefix(cs, i + 1);
    lemma_edl_total_prefix(cs, i);
}

#[verifier::spinoff_prover]
fn push_edl_event(out: &mut String, index: usize, c: &EdlClip, record_in: i64)
    requires
        0 <= c.source_in,
        c.source_in + clip_frames(*c) <= i64::MAX,
        0 <= record_in,
        record_in + clip_frames(*c) <= i64::MAX,
        index < usize::MAX,
    ensures
        final(out)@ == old(out)@ + edl_event(index as int, *c, record_in as int),
{
    let frames: i64 = if c.frames < 1 { 1 } else { c.frames };
    let mut line = String::new();
    push_zero_padded(&mut line, index as u64 + 1, 3);
    push_str(&mut line, "  AX       V     C        ");
    let a = frames_to_edl_timecode(c.source_in);
    push_str(&mut line, a.as_str());
    push_char(&mut line, ' ');
    let b = frames_to_edl_timecode(c.source_in + frames);
    push_str(&mut line, b.as_str());
    push_char(&mut line, ' ');
    let ghost head = line@;
    let d = frames_to_edl_timecode(record_in);
    push_str(&mut line, d.as_str());
    push_char(&mut line, ' ');
    let e = frames_to_edl_timecode(record_in + frames);
    push_str(&mut line, e.as_str());
    push_str(&mut line, "\r\n* FROM CLIP NAME: ");
    push_str(&mut line, c.name.as_str());
    push_str(&mut line, "\r\n\r\n");
    assert(line@ =~= head + edl_timecode_text(record_in as int) + seq![' '] + edl_timecode_text(record_in + clip_frames(*c))
        + "\r\n* FROM CLIP NAME: "@ + c.name@ + "\r\n\r\n"@);
    assert(line@ =~= edl_event(index as int, *c, record_in as int));
    push_str(out, line.as_str());
}

/// The CMX-style EDL of a list of events laid end to end on the record
/// timeline, starting at frame zero.
#[verifier::spinoff_prover]
pub fn edl_document(clips: &Vec<EdlClip>) -> (r: String)
    requires
        edl_fits(clips@),
    ensures
        r@ == edl_header() + edl_events(clips@),
{
    let mut out = String::new();
    push_str(&mut out, "TITLE: SceneWeaver Selects\r\nFCM: NON-DROP FRAME\r\n\r\n");
    let n = clips.len();
    let mut timeline: i64 = 0;
    for i in 0..n
        invariant
            n == clips@.len(),
            edl_fits(clips@),
            timeline == edl_total(clips@.take(i as int)),
            out@ == edl_header() + edl_events(clips@.take(i as int)),
    {
        let c = &clips[i];
        proof {
            lemma_edl_step(clips@, i as int);
        }
        push_edl_event(&mut out, i, c, timeline);
        let frames: i64 = if c.frames < 1 { 1 } else { c.frames };
        timeline = timeline + frames;
    }
    assert(clips@.take(n as int) =~= clips@);
    out
}

// ---------------------------------------------------------------------------
// FCPXML
// ---------------------------------------------------------------------------

/// One clip of an FCPXML timeline with the asset it plays.
#[derive(Debug, Clone)]
pub struct FcpxClip {
    pub name: String,
    pub path: String,
    pub media_type: MediaType,
    pub width: Option<i32>,
    pub height: Option<i32>,
    pub frame_rate: Option<FrameRate>,
    /// Length of the source asset.
    pub source_duration_ms: i64,
    /// Where the clip starts in its source; `None` writes the literal `0s`.
    pub start_ms: Option<i64>,
    /// Length of the clip on the timeline.
    pub duration_ms: i64,
}

pub open spec fn rate_or_default(r: Option<FrameRate>) -> FrameRate {
    match r {
        Some(x) => x,
        None => FrameRate::Whole(30),
    }
}

/// The timeline frame rate: the first clip's that has one, else 30 fps.
pub open spec fn timeline_rate(cs: Seq<FcpxClip>) -> FrameRate
    decreases cs.len(),
{
    if cs.len() == 0 {
        FrameRate::Whole(30)
    } else {
        match cs[0].frame_rate {
            Some(r) => r,
            None => timeline_rate(cs.drop_first()),
        }
    }
}

pub open spec fn fcpx_total(cs: Seq<FcpxClip>) -> int
    decreases cs.len(),
{
    if cs.len() == 0 { 0 } else { fcpx_total(cs.drop_last()) + cs.last().duration_ms }
}

/// Clip lengths are not negative and their sum fits in `i64`.
pub open spec fn fcpx_fits(cs: Seq<FcpxClip>) -> bool {
    &&& forall|k: int| 0 <= k < cs.len() ==> 0 <= #[trigger] cs[k].duration_ms
    &&& fcpx_total(cs) <= i64::MAX
}

pub open spec fn dimension(v: Option<i32>, default: int) -> int {
    let x: int = match v {
        Some(d) => d as int,
        None => default,
    };
    if x < 1 { 1 } else { x }
}

/// The id of the timeline's format resource.
pub open spec fn timeline_format_id() -> Seq<char> {
    "format-timeline"@
}

/// The id of the format resource of clip number `index` (from zero).
pub open spec fn format_resource_id(index: int) -> Seq<char> {
    "format-asset-"@ + decimal((index + 1) as nat)
}

/// The id of the asset resource of clip number `index` (from zero).
pub open spec fn asset_resource_id(index: int) -> Seq<char> {
    "asset-"@ + decimal((index + 1) as nat)
}

/// FCPXML resource ids never collide: no asset id is a format id, no
/// format id is the timeline's, and different clips get different ids.
pub proof fn law_fcpx_resource_ids_are_distinct(i: int, j: int)
    requires
        0 <= i,
        0 <= j,
    ensures
        asset_resource_id(i) != format_resource_id(j),
        asset_resource_id(i) != timeline_format_id(),
        format_resource_id(j) != timeline_format_id(),
        i != j ==> asset_resource_id(i) != asset_resource_id(j),
        i != j ==> format_resource_id(i) != format_resource_id(j),
{
    reveal_strlit("asset-");
    reveal_strlit("format-asset-");
    reveal_strlit("format-timeline");
    crate::text::lemma_decimal_nonempty((j + 1) as nat);
    assert(asset_resource_id(i)[0] != format_resource_id(j)[0]);
    assert(asset_resource_id(i)[0] != timeline_format_id()[0]);
    assert(format_resource_id(j)[7] != timeline_format_id()[7]);
    if i != j {
        if asset_resource_id(i) == asset_resource_id(j) {
            assert(asset_resource_id(i).skip(6) =~= decimal((i + 1) as nat));
            assert(asset_resource_id(j).skip(6) =~= decimal((j + 1) as nat));
            crate::text::lemma_decimal_injective((i + 1) as nat, (j + 1) as nat);
        }
        if format_resource_id(i) == format_resource_id(j) {
            assert(format_resource_id(i).skip(13) =~= decimal((i + 1) as nat));
            assert(format_resource_id(j).skip(13) =~= decimal((j + 1) as nat));
            crate::text::lemma_decimal_injective((i + 1) as nat, (j + 1) as nat);
        }
    }
}

pub open spec fn fcpx_header(rate: FrameRate) -> Seq<char> {
    "<?xml version=\"1.0\" encoding=\"UTF-8\"?>\n<fcpxml version=\"1.10\"><resources><format id=\""@
        + timeline_format_id() + "\" frameDuration=\""@ + frame_duration_text(rate)
        + "\" width=\"1920\" height=\"1080\"/>\n"@
}

/// The per-asset format resource of clip number `index` (from zero).
pub open spec fn format_resource_text(index: int, c: FcpxClip) -> Seq<char> {
    "<format id=\""@ + format_resource_id(index) + "\" frameDuration=\""@
        + frame_duration_text(rate_or_default(c.frame_rate)) + "\" width=\""@
        + decimal(dimension(c.width, 1920) as nat) + "\" height=\""@ + decimal(dimension(c.height, 1080) as nat)
        + "\"/>\n"@
}

/// The resources for clip number `index`: a format (not for audio) and the asset.
pub open spec fn asset_resource_text(index: int, c: FcpxClip) -> Seq<char> {
    let audio = c.media_type == MediaType::Audio;
    (if audio { Seq::empty() } else { format_resource_text(index, c) }) + "<asset id=\""@
        + asset_resource_id(index) + "\" name=\""@ + markup_escaped(c.name@) + "\" src=\""@
        + file_url_text(vstd::utf8::encode_utf8(c.path@)) + "\" start=\"0s\" duration=\""@
        + fcpx_duration_text(c.source_duration_ms as int) + "\""@
        + (if audio { Seq::empty() } else { " format=\""@ + format_resource_id(index) + "\""@ })
        + seq![' '] + media_attributes_text(c.media_type) + "/>\n"@
}

pub open spec fn fcpx_resources(cs: Seq<FcpxClip>) -> Seq<char>
    decreases cs.len(),
{
    if cs.len() == 0 {
        Seq::empty()
    } else {
        fcpx_resources(cs.drop_last()) + asset_resource_text(cs.len() - 1, cs.last())
    }
}

pub open spec fn fcpx_sequence_open(total: int) -> Seq<char> {
    "</resources><library><event name=\"SceneWeaver\"><project name=\"SceneWeaver Selects\"><sequence duration=\""@
        + fcpx_duration_text(total) + "\" format=\""@ + timeline_format_id() + "\"><spine>\n"@
}

/// The spine entry of clip number `index` placed at `offset` milliseconds.
pub open spec fn spine_clip_text(index: int, c: FcpxClip, offset: int) -> Seq<char> {
    "<asset-clip ref=\""@ + asset_resource_id(index) + "\" name=\""@ + markup_escaped(c.name@)
        + "\" offset=\""@ + fcpx_duration_text(offset) + "\" start=\""@
        + (match c.start_ms {
            Some(st) => fcpx_duration_text(st as int),
            None => "0s"@,
        }) + "\" duration=\""@ + fcpx_duration_text(c.duration_ms as int) + "\"/>\n"@
}

/// The clips, each starting where the previous one ended.
pub open spec fn fcpx_spine(cs: Seq<FcpxClip>) -> Seq<char>
    decreases cs.len(),
{
    if cs.len() == 0 {
        Seq::empty()
    } else {
        fcpx_spine(cs.drop_last()) + spine_clip_text(cs.len() - 1, cs.last(), fcpx_total(cs.drop_last()))
    }
}

pub open spec fn fcpx_footer() -> Seq<char> {
    "</spine></sequence></project></event></library></fcpxml>\n"@
}

/// The whole FCPXML document for a list of clips.
pub open spec fn fcpxml_text(cs: Seq<FcpxClip>) -> Seq<char> {
    fcpx_header(timeline_rate(cs)) + fcpx_resources(cs) + fcpx_sequence_open(fcpx_total(cs)) + fcpx_spine(cs)
        + fcpx_footer()
}

pub proof fn lemma_fcpx_total_prefix(cs: Seq<FcpxClip>, i: int)
    requires
        0 <= i <= cs.len(),
        forall|k: int| 0 <= k < cs.len() ==> 0 <= #[trigger] cs[k].duration_ms,
    ensures
        0 <= fcpx_total(cs.take(i)) <= fcpx_total(cs),
    decreases cs.len(),
{
    if cs.len() > 0 {
        let d = cs.drop_last();
        assert forall|k: int| 0 <= k < d.len() implies 0 <= #[trigger] d[k].duration_ms by {
            assert(d[k] == cs[k]);
        }
        if i == cs.len() {
            assert(cs.take(i) =~= cs);
            lemma_fcpx_total_prefix(d, d.len() as int);
            assert(d.take(d.len() as int) =~= d);
        } else {
            lemma_fcpx_total_prefix(d, i);
            assert(d.take(i) =~= cs.take(i));
        }
    }
}

fn push_dimension(out: &mut String, v: Option<i32>, default: i32)
    requires
        default >= 1,
    ensures
        final(out)@ == old(out)@ + decimal(dimension(v, default as int) as nat),
{
    let x: i32 = match v {
        Some(d) => d,
        None => default,
    };
    let y: i32 = if x < 1 { 1 } else { x };
    push_decimal(out, y as u64);
}

#[verifier::spinoff_prover]
fn push_asset_resource(out: &mut String, index: usize, c: &FcpxClip)
    requires
        index < usize::MAX,
    ensures
        final(out)@ == old(out)@ + asset_resource_text(index as int, *c),
{
    let number = index as u64 + 1;
    let audio = match c.media_type {
        MediaType::Audio => true,
        _ => false,
    };
    let mut text = String::new();
    if !audio {
        push_str(&mut text, "<format id=\"");
        push_str(&mut text, "format-asset-");
        push_decimal(&mut text, number);
        push_str(&mut text, "\" frameDuration=\"");
        let rate = match c.frame_rate {
            Some(r) => r,
            None => FrameRate::Whole(30),
        };
        let fd = fcpx_frame_duration(rate);
        push_str(&mut text, fd.as_str());
        push_str(&mut text, "\" width=\"");
        push_dimension(&mut text, c.width, 1920);
        push_str(&mut text, "\" height=\"");
        push_dimension(&mut text, c.height, 1080);
        push_str(&mut text, "\"/>\n");
        assert(text@ =~= format_resource_text(index as int, *c));
    }
    let ghost head = text@;
    push_str(&mut text, "<asset id=\"");
    push_str(&mut text, "asset-");
    push_decimal(&mut text, number);
    push_str(&mut text, "\" name=\"");
    push_markup_escaped(&mut text, c.name.as_str());
    push_str(&mut text, "\" src=\"");
    let url = file_url(c.path.as_str());
    push_str(&mut text, url.as_str());
    push_str(&mut text, "\" start=\"0s\" duration=\"");
    let sd = fcpx_duration(c.source_duration_ms);
    push_str(&mut text, sd.as_str());
    push_str(&mut text, "\"");
    let ghost mid = text@;
    assert(mid =~= head + "<asset id=\""@ + asset_resource_id(index as int) + "\" name=\""@ + markup_escaped(c.name@)
        + "\" src=\""@ + file_url_text(vstd::utf8::encode_utf8(c.path@)) + "\" start=\"0s\" duration=\""@
        + fcpx_duration_text(c.source_duration_ms as int) + "\""@);
    if !audio {
        push_str(&mut text, " format=\"");
        push_str(&mut text, "format-asset-");
        push_decimal(&mut text, number);
        push_str(&mut text, "\"");
    }
    let ghost tail_start = text@;
    push_char(&mut text, ' ');
    push_str(&mut text, fcpx_media_attributes(c.media_type));
    push_str(&mut text, "/>\n");
    assert(text@ =~= tail_start + seq![' '] + media_attributes_text(c.media_type) + "/>\n"@);
    assert(text@ =~= asset_resource_text(index as int, *c));
    push_str(out, text.as_str());
}

#[verifier::spinoff_prover]
fn push_spine_clip(out: &mut String, index: usize, c: &FcpxClip, offset: i64)
    requires
        index < usize::MAX,
    ensures
        final(out)@ == old(out)@ + spine_clip_text(index as int, *c, offset as int),
{
    let mut text = String::new();
    push_str(&mut text, "<asset-clip ref=\"");
    push_str(&mut text, "asset-");
    push_decimal(&mut text, index as u64 + 1);
    push_str(&mut text, "\" name=\"");
    push_markup_escaped(&mut text, c.name.as_str());
    push_str(&mut text, "\" offset=\"");
    let o = fcpx_duration(offset);
    push_str(&mut text, o.as_str());
    push_str(&mut text, "\" start=\"");
    let ghost head = text@;
    match c.start_ms {
        Some(st) => {
            let t = fcpx_duration(st);
            push_str(&mut text, t.as_str());
        },
        None => push_str(&mut text, "0s"),
    }
    push_str(&mut text, "\" duration=\"");
    let d = fcpx_duration(c.duration_ms);
    push_str(&mut text, d.as_str());
    push_str(&mut text, "\"/>\n");
    assert(text@ =~= spine_clip_text(index as int, *c, offset as int));
    push_str(out, text.as_str());
}

/// The FCPXML document of a list of clips: a 1920x1080 timeline at the
/// first clip's frame rate (30 fps when none has one), one format and asset
/// resource per clip (no format for audio), and the clips laid end to end.
#[verifier::spinoff_prover]
pub fn fcpxml_document(clips: &Vec<FcpxClip>) -> (r: String)
    requires
        fcpx_fits(clips@),
    ensures
        r@ == fcpxml_text(clips@),
{
    let n = clips.len();
    // timeline rate
    let mut rate = FrameRate::Whole(30);
    let mut found = false;
    let mut j: usize = 0;
    assert(clips@.skip(0) =~= clips@);
    while j < n && !found
        invariant
            n == clips@.len(),
            j <= n,
            found ==> rate == timeline_rate(clips@),
            !found ==> rate == FrameRate::Whole(30),
            !found ==> timeline_rate(clips@) == timeline_rate(clips@.skip(j as int)),
        decreases n - j + if found { 0int } else { 1int },
    {
        proof {
            assert(clips@.skip(j as int).drop_first() =~= clips@.skip(j + 1));
            assert(clips@.skip(j as int)[0] == clips@[j as int]);
        }
        match clips[j].frame_rate {
            Some(r) => {
                rate = r;
                found = true;
            },
            None => {},
        }
        j = j + 1;
    }
    proof {
        if !found {
            assert(clips@.skip(j as int).len() == 0);
        }
    }
    let mut out = String::new();
    push_str(&mut out, "<?xml version=\"1.0\" encoding=\"UTF-8\"?>\n<fcpxml version=\"1.10\"><resources><format id=\"");
    push_str(&mut out, "format-timeline");
    push_str(&mut out, "\" frameDuration=\"");
    let fd = fcpx_frame_duration(rate);
    push_str(&mut out, fd.as_str());
    push_str(&mut out, "\" width=\"1920\" height=\"1080\"/>\n");
    assert(out@ =~= fcpx_header(timeline_rate(clips@)));
    let ghost header = out@;
    for i in 0..n
        invariant
            n == clips@.len(),
            out@ == header + fcpx_resources(clips@.take(i as int)),
    {
        assert(clips@.take(i + 1).drop_last() =~= clips@.take(i as int));
        push_asset_resource(&mut out, i, &clips[i]);
    }
    assert(clips@.take(n as int) =~= clips@);
    let ghost with_resources = out@;
    let mut total: i64 = 0;
    for i in 0..n
        invariant
            n == clips@.len(),
            fcpx_fits(clips@),
            total == fcpx_total(clips@.take(i as int)),
    {
        proof {
            assert(clips@.take(i + 1).drop_last() =~= clips@.take(i as int));
            lemma_fcpx_total_prefix(clips@, i + 1);
        }
        total = total + clips[i].duration_ms;
    }
    push_str(&mut out, "</resources><library><event name=\"SceneWeaver\"><project name=\"SceneWeaver Selects\"><sequence duration=\"");
    let td = fcpx_duration(total);
    push_str(&mut out, td.as_str());
    push_str(&mut out, "\" format=\"");
    push_str(&mut out, "format-timeline");
    push_str(&mut out, "\"><spine>\n");
    assert(out@ =~= with_resources + fcpx_sequence_open(fcpx_total(clips@)));
    let ghost opened = out@;
    let mut offset: i64 = 0;
    for i in 0..n
        invariant
            n == clips@.len(),
            fcpx_fits(clips@),
            offset == fcpx_total(clips@.take(i as int)),
            out@ == opened + fcpx_spine(clips@.take(i as int)),
    {
        proof {
            assert(clips@.take(i + 1).drop_last() =~= clips@.take(i as int));
            lemma_fcpx_total_prefix(clips@, i + 1);
        }
        push_spine_clip(&mut out, i, &clips[i], offset);
        offset = offset + clips[i].duration_ms;
    }
    push_str(&mut out, "</spine></sequence></project></event></library></fcpxml>\n");
    out
}

/// The FCPXML clip of a whole asset, from its start.
pub open spec fn asset_clip(a: Asset) -> FcpxClip {
    FcpxClip {
        name: a.file_name,
        path: a.file_path,
        media_type: a.media_type,
        width: a.width,
        height: a.height,
        frame_rate: a.frame_rate,
        source_duration_ms: if duration_or_zero(a) < 0 { 0 } else { duration_or_zero(a) as i64 },
        start_ms: None,
        duration_ms: if duration_or_zero(a) < 0 { 0 } else { duration_or_zero(a) as i64 },
    }
}

/// The FCPXML clip of a select item: its exported range, at least one
/// millisecond long, in a source at least as long as the range's end.
pub open spec fn select_clip(item: SelectItem) -> FcpxClip {
    let (start, end) = select_range_of(item);
    let source: int = match item.asset.duration_ms {
        Some(d) => d as int,
        None => end,
    };
    let source2: int = if source < end { end } else { source };
    FcpxClip {
        name: item.asset.file_name,
        path: item.asset.file_path,
        media_type: item.asset.media_type,
        width: item.asset.width,
        height: item.asset.height,
        frame_rate: item.asset.frame_rate,
        source_duration_ms: (if source2 < 1 { 1 } else { source2 }) as i64,
        start_ms: Some(start as i64),
        duration_ms: (if end - start < 1 { 1 } else { end - start }) as i64,
    }
}

pub open spec fn asset_clips(assets: Seq<Asset>) -> Seq<FcpxClip> {
    assets.map_values(|a: Asset| asset_clip(a))
}

pub open spec fn select_clips(items: Seq<SelectItem>) -> Seq<FcpxClip> {
    items.map_values(|i: SelectItem| select_clip(i))
}

/// The clip of a whole asset.
pub fn asset_fcpx_clip(a: &Asset) -> (r: FcpxClip)
    ensures
        r == asset_clip(*a),
{
    let d: i64 = match a.duration_ms {
        Some(v) => v,
        None => 0,
    };
    let d0: i64 = if d < 0 { 0 } else { d };
    FcpxClip {
        name: a.file_name.clone(),
        path: a.file_path.clone(),
        media_type: a.media_type,
        width: a.width,
        height: a.height,
        frame_rate: a.frame_rate,
        source_duration_ms: d0,
        start_ms: None,
        duration_ms: d0,
    }
}

/// The clip of a select item; its range's length must fit in `i64`.
pub fn select_fcpx_clip(item: &SelectItem) -> (r: FcpxClip)
    requires
        select_range_of(*item).1 - select_range_of(*item).0 <= i64::MAX,
    ensures
        r == select_clip(*item),
{
    let (start, end) = select_range(item);
    let source: i64 = match item.asset.duration_ms {
        Some(d) => d,
        None => end,
    };
    let source2: i64 = if source < end { end } else { source };
    let length: i64 = end - start;
    FcpxClip {
        name: item.asset.file_name.clone(),
        path: item.asset.file_path.clone(),
        media_type: item.asset.media_type,
        width: item.asset.width,
        height: item.asset.height,
        frame_rate: item.asset.frame_rate,
        source_duration_ms: if source2 < 1 { 1 } else { source2 },
        start_ms: Some(start),
        duration_ms: if length < 1 { 1 } else { length },
    }
}

/// The FCPXML export of whole assets.
pub fn assets_fcpxml(assets: &Vec<Asset>) -> (r: String)
    requires
        fcpx_total(asset_clips(assets@)) <= i64::MAX,
    ensures
        r@ == fcpxml_text(asset_clips(assets@)),
{
    let mut clips: Vec<FcpxClip> = Vec::new();
    let n = assets.len();
    for i in 0..n
        invariant
            n == assets@.len(),
            clips@ == asset_clips(assets@.take(i as int)),
    {
        let c = asset_fcpx_clip(&assets[i]);
        clips.push(c);
        assert(clips@ =~= asset_clips(assets@.take(i + 1)));
    }
    assert(assets@.take(n as int) =~= assets@);
    fcpxml_document(&clips)
}

/// The FCPXML export of select items.
pub fn select_items_fcpxml(items: &Vec<SelectItem>) -> (r: String)
    requires
        forall|k: int| 0 <= k < items@.len() ==>
            select_range_of(#[trigger] items@[k]).1 - select_range_of(items@[k]).0 <= i64::MAX,
        fcpx_total(select_clips(items@)) <= i64::MAX,
    ensures
        r@ == fcpxml_text(select_clips(items@)),
{
    let mut clips: Vec<FcpxClip> = Vec::new();
    let n = items.len();
    for i in 0..n
        invariant
            n == items@.len(),
            forall|k: int| 0 <= k < items@.len() ==>
                select_range_of(#[trigger] items@[k]).1 - select_range_of(items@[k]).0 <= i64::MAX,
            clips@ == select_clips(items@.take(i as int)),
    {
        let c = select_fcpx_clip(&items[i]);
        clips.push(c);
        assert(clips@ =~= select_clips(items@.take(i + 1)));
    }
    assert(items@.take(n as int) =~= items@);
    fcpxml_document(&clips)
}

// ---------------------------------------------------------------------------
// HTML contact sheet
// ---------------------------------------------------------------------------

/// The page head, styles and title of the contact sheet.
pub open spec fn sheet_head() -> Seq<char> {
    "<!doctype html><html lang=\"zh-CN\"><head><meta charset=\"utf-8\"><meta name=\"viewport\" content=\"width=device-width, initial-scale=1\"><title>SceneWeaver Selects Contact Sheet</title><style>body{margin:32px;background:#18181b;color:#f4f4f5;font:14px/1.45 system-ui,-apple-system,Segoe UI,sans-serif}h1{margin:0 0 4px;font-size:24px}.summary{margin:0 0 24px;color:#a1a1aa}.grid{display:grid;grid-template-columns:repeat(auto-fill,minmax(260px,1fr));gap:16px}.card{overflow:hidden;border:1px solid #3f3f46;border-radius:10px;background:#27272a}.thumb{width:100%;aspect-ratio:16/9;display:grid;place-items:center;background:#18181b;object-fit:contain}.missing{color:#a1a1aa}.body{padding:12px}.name{margin:0 0 8px;font-weight:700;overflow-wrap:anywhere}.meta{margin:4px 0;color:#d4d4d8;overflow-wrap:anywhere}.label{color:#a1a1aa}@media print{body{margin:12mm;background:#fff;color:#18181b}.card{border-color:#a1a1aa;background:#fff}.thumb{background:#f4f4f5}.summary,.label{color:#52525b}.meta{color:#27272a}}</style></head><body><h1>SceneWeaver 选片联系表</h1>"@
}

pub open spec fn sheet_summary(count: nat) -> Seq<char> {
    "<p class=\"summary\">共 "@ + decimal(count) + " 条 · 导出时间范围遵循推荐入/出点，随后使用片段范围。</p><main class=\"grid\">"@
}

pub open spec fn sheet_thumbnail(item: SelectItem, uri: Option<String>) -> Seq<char> {
    match uri {
        Some(u) => "<img class=\"thumb\" src=\""@ + u@ + "\" alt=\""@ + markup_escaped(item.asset.file_name@) + "\">"@,
        None => "<div class=\"thumb missing\">缩略图不可用</div>"@,
    }
}

pub open spec fn sheet_rating(r: Option<i32>) -> Seq<char> {
    match r {
        Some(v) => "<p class=\"meta\"><span class=\"label\">评分：</span>"@ + crate::text::signed_decimal(v as int) + "/5</p>"@,
        None => Seq::empty(),
    }
}

/// A note is shown when something is left of it once trimmed.
pub open spec fn sheet_note(n: Option<String>) -> Seq<char> {
    match n {
        Some(v) => if crate::text::trimmed(v@).len() > 0 {
            "<p class=\"meta\"><span class=\"label\">备注：</span>"@ + markup_escaped(v@) + "</p>"@
        } else {
            Seq::empty()
        },
        None => Seq::empty(),
    }
}

/// The card of item number `index` (from zero), with its embedded thumbnail
/// when one could be read.
pub open spec fn sheet_card(index: int, item: SelectItem, uri: Option<String>) -> Seq<char> {
    let (start, end) = select_range_of(item);
    "<article class=\"card\">"@ + sheet_thumbnail(item, uri) + "<div class=\"body\">"@ + "<p class=\"name\">#"@
        + zero_padded((index + 1) as nat, 2) + seq![' '] + markup_escaped(item.asset.file_name@)
        + "</p><p class=\"meta\"><span class=\"label\">范围：</span>"@ + timecode_text(start) + " — "@
        + timecode_text(end) + "</p><p class=\"meta\"><span class=\"label\">类型：</span>"@
        + markup_escaped(item.asset.media_type.name())
        + "</p><p class=\"meta\"><span class=\"label\">路径：</span>"@ + markup_escaped(item.asset.file_path@)
        + "</p>"@ + sheet_rating(item.rating) + sheet_note(item.note) + "</div></article>"@
}

pub open spec fn sheet_cards(items: Seq<SelectItem>, uris: Seq<Option<String>>) -> Seq<char>
    decreases items.len(),
{
    if items.len() == 0 {
        Seq::empty()
    } else {
        sheet_cards(items.drop_last(), uris) + sheet_card(items.len() - 1, items.last(), uris[items.len() - 1])
    }
}

pub open spec fn sheet_text(items: Seq<SelectItem>, uris: Seq<Option<String>>) -> Seq<char> {
    sheet_head() + sheet_summary(items.len()) + sheet_cards(items, uris) + "</main></body></html>\n"@
}

proof fn lemma_sheet_cards_step(items: Seq<SelectItem>, uris: Seq<Option<String>>, i: int)
    requires
        0 <= i < items.len(),
    ensures
        sheet_cards(items.take(i + 1), uris) == sheet_cards(items.take(i), uris) + sheet_card(i, items[i], uris[i]),
{
    assert(items.take(i + 1).drop_last() =~= items.take(i));
    assert(items.take(i + 1).last() == items[i]);
}

#[verifier::spinoff_prover]
fn push_sheet_card(out: &mut String, index: usize, item: &SelectItem, uri: &Option<String>)
    requires
        index < usize::MAX,
    ensures
        final(out)@ == old(out)@ + sheet_card(index as int, *item, *uri),
{
    let (start, end) = select_range(item);
    let mut card = String::new();
    push_str(&mut card, "<article class=\"card\">");
    match uri {
        Some(u) => {
            push_str(&mut card, "<img class=\"thumb\" src=\"");
            push_str(&mut card, u.as_str());
            push_str(&mut card, "\" alt=\"");
            push_markup_escaped(&mut card, item.asset.file_name.as_str());
            push_str(&mut card, "\">");
        },
        None => push_str(&mut card, "<div class=\"thumb missing\">缩略图不可用</div>"),
    }
    push_str(&mut card, "<div class=\"body\">");
    let ghost head = card@;
    assert(head =~= "<article class=\"card\">"@ + sheet_thumbnail(*item, *uri) + "<div class=\"body\">"@);
    push_str(&mut card, "<p class=\"name\">#");
    push_zero_padded(&mut card, index as u64 + 1, 2);
    push_char(&mut card, ' ');
    push_markup_escaped(&mut card, item.asset.file_name.as_str());
    push_str(&mut card, "</p><p class=\"meta\"><span class=\"label\">范围：</span>");
    let t0 = timecode(start);
    push_str(&mut card, t0.as_str());
    push_str(&mut card, " — ");
    let t1 = timecode(end);
    push_str(&mut card, t1.as_str());
    let ghost mid = card@;
    assert(mid =~= head + "<p class=\"name\">#"@ + zero_padded((index + 1) as nat, 2) + seq![' ']
        + markup_escaped(item.asset.file_name@) + "</p><p class=\"meta\"><span class=\"label\">范围：</span>"@
        + timecode_text(start as int) + " — "@ + timecode_text(end as int));
    push_str(&mut card, "</p><p class=\"meta\"><span class=\"label\">类型：</span>");
    push_markup_escaped(&mut card, item.asset.media_type.as_str());
    push_str(&mut card, "</p><p class=\"meta\"><span class=\"label\">路径：</span>");
    push_markup_escaped(&mut card, item.asset.file_path.as_str());
    push_str(&mut card, "</p>");
    let ghost body = card@;
    assert(body =~= mid + "</p><p class=\"meta\"><span class=\"label\">类型：</span>"@
        + markup_escaped(item.asset.media_type.name())
        + "</p><p class=\"meta\"><span class=\"label\">路径：</span>"@ + markup_escaped(item.asset.file_path@)
        + "</p>"@);
    match item.rating {
        Some(v) => {
            push_str(&mut card, "<p class=\"meta\"><span class=\"label\">评分：</span>");
            crate::text::push_signed(&mut card, v as i64);
            push_str(&mut card, "/5</p>");
        },
        None => {},
    }
    let ghost rated = card@;
    assert(rated =~= body + sheet_rating(item.rating));
    match &item.note {
        Some(n) => {
            if !crate::text::is_blank(n.as_str()) {
                push_str(&mut card, "<p class=\"meta\"><span class=\"label\">备注：</span>");
                push_markup_escaped(&mut card, n.as_str());
                push_str(&mut card, "</p>");
            }
        },
        None => {},
    }
    assert(card@ =~= rated + sheet_note(item.note));
    push_str(&mut card, "</div></article>");
    assert(card@ =~= sheet_card(index as int, *item, *uri));
    push_str(out, card.as_str());
}

/// The offline HTML contact sheet of select items, with `thumbnails[k]` the
/// embedded thumbnail of item `k` when it could be read.
#[verifier::spinoff_prover]
pub fn contact_sheet_html(items: &Vec<SelectItem>, thumbnails: &Vec<Option<String>>) -> (r: String)
    requires
        thumbnails@.len() == items@.len(),
    ensures
        r@ == sheet_text(items@, thumbnails@),
{
    let mut out = String::new();
    push_str(&mut out, "<!doctype html><html lang=\"zh-CN\"><head><meta charset=\"utf-8\"><meta name=\"viewport\" content=\"width=device-width, initial-scale=1\"><title>SceneWeaver Selects Contact Sheet</title><style>body{margin:32px;background:#18181b;color:#f4f4f5;font:14px/1.45 system-ui,-apple-system,Segoe UI,sans-serif}h1{margin:0 0 4px;font-size:24px}.summary{margin:0 0 24px;color:#a1a1aa}.grid{display:grid;grid-template-columns:repeat(auto-fill,minmax(260px,1fr));gap:16px}.card{overflow:hidden;border:1px solid #3f3f46;border-radius:10px;background:#27272a}.thumb{width:100%;aspect-ratio:16/9;display:grid;place-items:center;background:#18181b;object-fit:contain}.missing{color:#a1a1aa}.body{padding:12px}.name{margin:0 0 8px;font-weight:700;overflow-wrap:anywhere}.meta{margin:4px 0;color:#d4d4d8;overflow-wrap:anywhere}.label{color:#a1a1aa}@media print{body{margin:12mm;background:#fff;color:#18181b}.card{border-color:#a1a1aa;background:#fff}.thumb{background:#f4f4f5}.summary,.label{color:#52525b}.meta{color:#27272a}}</style></head><body><h1>SceneWeaver 选片联系表</h1>");
    push_str(&mut out, "<p class=\"summary\">共 ");
    push_decimal(&mut out, items.len() as u64);
    push_str(&mut out, " 条 · 导出时间范围遵循推荐入/出点，随后使用片段范围。</p><main class=\"grid\">");
    let ghost start = out@;
    assert(start =~= sheet_head() + sheet_summary(items@.len()));
    let n = items.len();
    for i in 0..n
        invariant
            n == items@.len() == thumbnails@.len(),
            out@ == start + sheet_cards(items@.take(i as int), thumbnails@),
    {
        proof {
            lemma_sheet_cards_step(items@, thumbnails@, i as int);
        }
        push_sheet_card(&mut out, i, &items[i], &thumbnails[i]);
    }
    assert(items@.take(n as int) =~= items@);
    push_str(&mut out, "</main></body></html>\n");
    out
}

/// `data:` URI of a thumbnail file's bytes, when its path has an extension
/// (the type follows the extension found).
pub fn thumbnail_data_uri(path: &str, bytes: &[u8]) -> (r: Option<String>)
    ensures
        r matches Some(u) ==> exists|e: Seq<char>| #![auto]
            crate::text::has_substring(path@, seq!['.'] + e) && !e.contains('.')
                && u@ == "data:"@ + thumbnail_mime(e) + ";base64,"@ + base64_text(bytes@),
        portable_extension(path@) matches Some(x) ==> (r matches Some(u)
            && u@ == "data:"@ + thumbnail_mime(x) + ";base64,"@ + base64_text(bytes@)),
{
    match path_extension(path) {
        Some(e) => {
            let u = data_uri(e.as_str(), bytes);
            assert(crate::text::has_substring(path@, seq!['.'] + e@));
            Some(u)
        },
        None => None,
    }
}

/// The image a contact sheet shows for an item: the segment's thumbnail
/// when it has one, else the asset's cover thumbnail in the cache.
pub fn thumbnail_source(item: &SelectItem, cache: &CacheManager) -> (r: String)
    ensures
        match item.segment {
            Some(seg) => match seg.thumbnail_path {
                Some(t) => r@ == t@,
                None => cache_file(cache.root_view(), "thumbnails"@, item.asset.id@ + seq!['_'] + "cover"@ + ".jpg"@, r@),
            },
            None => cache_file(cache.root_view(), "thumbnails"@, item.asset.id@ + seq!['_'] + "cover"@ + ".jpg"@, r@),
        },
{
    let own = match &item.segment {
        Some(seg) => match &seg.thumbnail_path {
            Some(t) => Some(t.clone()),
            None => None,
        },
        None => None,
    };
    match own {
        Some(t) => t,
        None => {
            let r = cache.thumbnail_path(item.asset.id.as_str(), "cover");
            r
        },
    }
}

// ---------------------------------------------------------------------------
// JSON records
// ---------------------------------------------------------------------------

/// The JSON record of an exported asset.
#[derive(Debug, Clone)]
pub struct AssetRecord {
    pub file_name: String,
    pub file_path: String,
    pub media_type: String,
    pub duration_ms: Option<i64>,
    pub start_timecode: String,
    pub end_timecode: String,
}

/// The JSON record of an exported select item.
#[derive(Debug, Clone)]
pub struct SelectRecord {
    pub file_name: String,
    pub file_path: String,
    pub media_type: String,
    pub start_ms: i64,
    pub end_ms: i64,
    pub start_timecode: String,
    pub end_timecode: String,
    pub rating: Option<i32>,
    pub note: Option<String>,
}

/// The record of an asset: its name, path, media type and duration, with
/// the timecodes of its start and end.
pub fn asset_record(a: &Asset) -> (r: AssetRecord)
    ensures
        r.file_name@ == a.file_name@,
        r.file_path@ == a.file_path@,
        r.media_type@ == a.media_type.name(),
        r.duration_ms == a.duration_ms,
        r.start_timecode@ == timecode_text(0),
        r.end_timecode@ == timecode_text(duration_or_zero(*a)),
{
    let d: i64 = match a.duration_ms {
        Some(v) => v,
        None => 0,
    };
    AssetRecord {
        file_name: a.file_name.clone(),
        file_path: a.file_path.clone(),
        media_type: a.media_type.as_str().to_string(),
        duration_ms: a.duration_ms,
        start_timecode: timecode(0),
        end_timecode: timecode(d),
    }
}

/// The record of a select item: its exported range in milliseconds and as
/// timecodes, with its rating and note.
pub fn select_record(item: &SelectItem) -> (r: SelectRecord)
    ensures
        r.file_name@ == item.asset.file_name@,
        r.file_path@ == item.asset.file_path@,
        r.media_type@ == item.asset.media_type.name(),
        (r.start_ms as int, r.end_ms as int) == select_range_of(*item),
        r.start_timecode@ == timecode_text(r.start_ms as int),
        r.end_timecode@ == timecode_text(r.end_ms as int),
        r.rating == item.rating,
        r.note == item.note,
{
    let (start, end) = select_range(item);
    SelectRecord {
        file_name: item.asset.file_name.clone(),
        file_path: item.asset.file_path.clone(),
        media_type: item.asset.media_type.as_str().to_string(),
        start_ms: start,
        end_ms: end,
        start_timecode: timecode(start),
        end_timecode: timecode(end),
        rating: item.rating,
        note: item.note.clone(),
    }
}

// ---------------------------------------------------------------------------
// PNG contact sheet layout
// ---------------------------------------------------------------------------

/// Tiles of 240x150 pixels in four columns, separated and framed by 8-pixel gaps.
pub open spec fn sheet_rows(count: int) -> int {
    let c = if count < 1 { 1 } else { count };
    (c + 3) / 4
}

/// Pixel size of the PNG contact sheet for `count` items (at least one row).
pub fn contact_sheet_size(count: usize) -> (r: (u32, u32))
    requires
        sheet_rows(count as int) * 158 + 8 <= u32::MAX,
    ensures
        r.0 == 4 * 240 + 5 * 8,
        r.1 == sheet_rows(count as int) * 150 + (sheet_rows(count as int) + 1) * 8,
{
    let c: usize = if count < 1 { 1 } else { count };
    let rows: u32 = ((c - 1) / 4 + 1) as u32;
    assert(rows == sheet_rows(count as int));
    (4 * 240 + 5 * 8, rows * 150 + (rows + 1) * 8)
}

/// Where a thumbnail of `width` x `height` pixels goes for item `index`:
/// centred in its tile, row by row.
pub fn tile_origin(index: usize, width: u32, height: u32) -> (r: (u32, u32))
    requires
        width <= 240,
        height <= 150,
        (index / 4) * 158 + 158 <= u32::MAX,
    ensures
        r.0 == 8 + (index % 4) * 248 + (240 - width) / 2,
        r.1 == 8 + (index / 4) * 158 + (150 - height) / 2,
{
    let column = (index % 4) as u32;
    let row = (index / 4) as u32;
    (8 + column * 248 + (240 - width) / 2, 8 + row * 158 + (150 - height) / 2)
}

// ---------------------------------------------------------------------------
// Laws
// ---------------------------------------------------------------------------

/// Escaped markup contains no raw `"`, `<` or `>`, so it cannot close an
/// attribute or open a tag.
pub proof fn law_markup_escape_removes_specials(s: Seq<char>)
    ensures
        forall|i: int| 0 <= i < markup_escaped(s).len() ==> {
            let c = #[trigger] markup_escaped(s)[i];
            c != '"' && c != '<' && c != '>'
        },
    decreases s.len(),
{
    reveal_strlit("&amp;");
    reveal_strlit("&quot;");
    reveal_strlit("&lt;");
    reveal_strlit("&gt;");
    if s.len() > 0 {
        law_markup_escape_removes_specials(s.drop_last());
        let p = markup_escaped(s.drop_last());
        let q = markup_char(s.last());
        assert forall|i: int| 0 <= i < markup_escaped(s).len() implies {
            let c = #[trigger] markup_escaped(s)[i];
            c != '"' && c != '<' && c != '>'
        } by {
            if i >= p.len() {
                assert(markup_escaped(s)[i] == q[i - p.len()]);
            } else {
                assert(markup_escaped(s)[i] == p[i]);
            }
        }
    }
}

/// Base64 turns every started group of three bytes into four characters.
pub proof fn law_base64_length(bytes: Seq<u8>)
    ensures
        base64_text(bytes).len() == 4 * ((bytes.len() + 2) / 3),
{
    lemma_base64_len(bytes);
}

/// A file URL is plain ASCII, whatever the path holds.
pub proof fn law_file_url_is_ascii(bytes: Seq<u8>)
    ensures
        forall|i: int| 0 <= i < url_encoded(bytes).len() ==> (#[trigger] url_encoded(bytes)[i]) as int <= 0x7F,
    decreases bytes.len(),
{
    if bytes.len() > 0 {
        law_file_url_is_ascii(bytes.drop_last());
        let p = url_encoded(bytes.drop_last());
        let q = url_byte(bytes.last());
        assert forall|i: int| 0 <= i < url_encoded(bytes).len() implies (#[trigger] url_encoded(bytes)[i]) as int <= 0x7F by {
            if i >= p.len() {
                assert(url_encoded(bytes)[i] == q[i - p.len()]);
            } else {
                assert(url_encoded(bytes)[i] == p[i]);
            }
        }
    }
}


/// The timeline takes the frame rate of the first clip that has one,
/// whatever clips without a rate come before it.
pub proof fn law_timeline_rate_is_the_first_known_rate(cs: Seq<FcpxClip>, k: int)
    requires
        0 <= k < cs.len(),
        cs[k].frame_rate is Some,
        forall|j: int| 0 <= j < k ==> (#[trigger] cs[j]).frame_rate is None,
    ensures
        timeline_rate(cs) == cs[k].frame_rate->0,
    decreases k,
{
    if k > 0 {
        let rest = cs.drop_first();
        assert forall|j: int| 0 <= j < k - 1 implies (#[trigger] rest[j]).frame_rate is None by {
            assert(rest[j] == cs[j + 1]);
        }
        assert(rest[k - 1] == cs[k]);
        law_timeline_rate_is_the_first_known_rate(rest, k - 1);
        assert(cs[0].frame_rate is None);
    }
}

/// The timeline falls back to 30 fps only when no clip has a frame rate.
pub proof fn law_timeline_rate_defaults_without_rates(cs: Seq<FcpxClip>)
    requires
        forall|j: int| 0 <= j < cs.len() ==> (#[trigger] cs[j]).frame_rate is None,
    ensures
        timeline_rate(cs) == FrameRate::Whole(30),
    decreases cs.len(),
{
    if cs.len() > 0 {
        let rest = cs.drop_first();
        assert forall|j: int| 0 <= j < rest.len() implies (#[trigger] rest[j]).frame_rate is None by {
            assert(rest[j] == cs[j + 1]);
        }
        assert(cs[0].frame_rate is None);
        law_timeline_rate_defaults_without_rates(rest);
    }
}

/// A recommended in-point alone decides where an exported range starts,
/// whether or not an out-point is set; a recommended out-point decides
/// where it ends unless it lies before the start; without them the segment,
/// then the asset, gives the range.
pub proof fn law_recommended_points_override_the_segment(item: SelectItem)
    ensures
        item.recommended_in_ms matches Some(v) ==> select_range_of(item).0 == v,
        item.recommended_in_ms is None ==> select_range_of(item).0 == match item.segment {
            Some(seg) => seg.start_ms as int,
            None => 0,
        },
        select_range_of(item).0 <= select_range_of(item).1,
        item.recommended_out_ms matches Some(w) ==> select_range_of(item).1 == if w < select_range_of(item).0 {
            select_range_of(item).0
        } else {
            w as int
        },
{
}

} // verus!
