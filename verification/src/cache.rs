//! Where derived files (thumbnails, proxies, keyframes, models) live under
//! the cache root.

use vstd::prelude::*;

use crate::text::{push_str, signed_decimal};

verus! {

/// A relative name that every platform reads as one plain component:
/// non-empty, without a separator (`/` or `\`), a drive colon or a `?`
/// (which verbatim `\\?\` prefixes start with).
pub open spec fn simple_name(p: Seq<char>) -> bool {
    p.len() > 0 && !p.contains('/') && !p.contains('\\') && !p.contains(':') && !p.contains('?')
}

/// `joined` is `part` pushed onto `base`, for a simple `part` and a `base`
/// that is not verbatim: `part` itself when `base` is empty; `base` then
/// `part` when `base` ends in `/`; after a `\` or a `:` (which may end a
/// separator or a bare drive on Windows) no separator, `/` or `\`;
/// otherwise `base`, the platform's separator (`/` or `\`) and `part`.
pub open spec fn joined_below(base: Seq<char>, part: Seq<char>, joined: Seq<char>) -> bool {
    if base.len() == 0 {
        joined == part
    } else if base.last() == '/' {
        joined == base + part
    } else if base.last() == '\\' || base.last() == ':' {
        ||| joined == base + part
        ||| joined == base + seq!['/'] + part
        ||| joined == base + seq!['\\'] + part
    } else {
        ||| joined == base + seq!['/'] + part
        ||| joined == base + seq!['\\'] + part
    }
}

/// What joining `part` onto `base` gives on every platform, where that is
/// settled: for a simple part and a base without `?`.
pub open spec fn path_join_result(base: Seq<char>, part: Seq<char>, joined: Seq<char>) -> bool {
    simple_name(part) && !base.contains('?') ==> joined_below(base, part, joined)
}

/// `Path::join` of two UTF-8 paths, as text. `PathBuf::push`'s
/// documentation: a relative part is appended after a separator unless the
/// base is empty or already ends in one (or, on Windows, is a bare drive);
/// an absolute part, a rooted part on Windows, or any part after a
/// verbatim `\\?\` base is handled otherwise. The contract states the result
/// for a simple part and a base without `?` (never verbatim); which of `/`
/// and `\` is added is the platform's, and nothing is claimed for the rest.
#[verifier::external_body]
fn join_path(base: &str, part: &str) -> (r: String)
    ensures
        path_join_result(base@, part@, r@),
{
    std::path::Path::new(base).join(part).to_string_lossy().into_owned()
}

/// Neither `a` nor `b` holds `c`, so their concatenation does not.
proof fn lemma_concat_lacks(a: Seq<char>, b: Seq<char>, c: char)
    requires
        !a.contains(c),
        !b.contains(c),
    ensures
        !(a + b).contains(c),
{
    if (a + b).contains(c) {
        let i = choose|i: int| 0 <= i < (a + b).len() && (a + b)[i] == c;
        if i < a.len() {
            assert(a[i] == c);
        } else {
            assert(b[i - a.len()] == c);
        }
    }
}

/// A joined path holds `?` only where its pieces do.
proof fn lemma_joined_lacks_question(base: Seq<char>, part: Seq<char>, joined: Seq<char>)
    requires
        !base.contains('?'),
        simple_name(part),
        joined_below(base, part, joined),
    ensures
        !joined.contains('?'),
{
    lemma_concat_lacks(base, part, '?');
    lemma_concat_lacks(seq!['/'], part, '?');
    lemma_concat_lacks(seq!['\\'], part, '?');
    lemma_concat_lacks(base, seq!['/'], '?');
    lemma_concat_lacks(base, seq!['\\'], '?');
    lemma_concat_lacks(base + seq!['/'], part, '?');
    lemma_concat_lacks(base + seq!['\\'], part, '?');
}

/// `path` is `file` inside the subdirectory `dir` of `root`, where that is
/// settled: for simple `dir` and `file` and a root without `?`, the root, a
/// separator unless it already ends in one, `dir`, a separator and `file`.
pub open spec fn cache_file(root: Seq<char>, dir: Seq<char>, file: Seq<char>, path: Seq<char>) -> bool {
    simple_name(dir) && simple_name(file) && !root.contains('?') ==> exists|mid: Seq<char>|
        joined_below(root, dir, mid) && joined_below(mid, file, path)
}

/// The cache directory layout.
#[derive(Debug, Clone)]
pub struct CacheManager {
    root: String,
}

impl CacheManager {
    pub closed spec fn root_view(self) -> Seq<char> {
        self.root@
    }

    /// A cache rooted at `root`.
    pub fn new(root: &str) -> (r: CacheManager)
        ensures
            r.root_view() == root@,
    {
        CacheManager { root: root.to_string() }
    }

    /// The cache root.
    pub fn root(&self) -> (r: &str)
        ensures
            r@ == self.root_view(),
    {
        self.root.as_str()
    }

    fn file_in(&self, dir: &str, file: &str) -> (r: String)
        ensures
            cache_file(self.root_view(), dir@, file@, r@),
    {
        let mid = join_path(self.root.as_str(), dir);
        proof {
            if simple_name(dir@) && !self.root@.contains('?') {
                lemma_joined_lacks_question(self.root@, dir@, mid@);
            }
        }
        let r = join_path(mid.as_str(), file);
        r
    }

    /// `thumbnails/{asset_id}_{variant}.jpg`.
    pub fn thumbnail_path(&self, asset_id: &str, variant: &str) -> (r: String)
        ensures
            cache_file(self.root_view(), "thumbnails"@, asset_id@ + seq!['_'] + variant@ + ".jpg"@, r@),
    {
        let mut name = String::new();
        push_str(&mut name, asset_id);
        push_str(&mut name, "_");
        push_str(&mut name, variant);
        push_str(&mut name, ".jpg");
        proof {
            reveal_strlit("_");
        }
        assert(name@ =~= asset_id@ + seq!['_'] + variant@ + ".jpg"@);
        self.file_in("thumbnails", name.as_str())
    }

    /// `proxies/{asset_id}.mp4`.
    pub fn proxy_path(&self, asset_id: &str) -> (r: String)
        ensures
            cache_file(self.root_view(), "proxies"@, asset_id@ + ".mp4"@, r@),
    {
        let mut name = String::new();
        push_str(&mut name, asset_id);
        push_str(&mut name, ".mp4");
        self.file_in("proxies", name.as_str())
    }

    /// `proxies/{asset_id}_{index}.mp4`: the preview of one segment.
    pub fn segment_preview_path(&self, asset_id: &str, index: i32) -> (r: String)
        ensures
            cache_file(self.root_view(), "proxies"@, asset_id@ + seq!['_'] + signed_decimal(index as int) + ".mp4"@, r@),
    {
        let mut name = String::new();
        push_str(&mut name, asset_id);
        push_str(&mut name, "_");
        crate::text::push_signed(&mut name, index as i64);
        push_str(&mut name, ".mp4");
        proof {
            reveal_strlit("_");
        }
        assert(name@ =~= asset_id@ + seq!['_'] + signed_decimal(index as int) + ".mp4"@);
        self.file_in("proxies", name.as_str())
    }

    /// `keyframes/{asset_id}_{index}.jpg`: the keyframe of one segment.
    pub fn keyframe_path(&self, asset_id: &str, index: i32) -> (r: String)
        ensures
            cache_file(self.root_view(), "keyframes"@, asset_id@ + seq!['_'] + signed_decimal(index as int) + ".jpg"@, r@),
    {
        let mut name = String::new();
        push_str(&mut name, asset_id);
        push_str(&mut name, "_");
        crate::text::push_signed(&mut name, index as i64);
        push_str(&mut name, ".jpg");
        proof {
            reveal_strlit("_");
        }
        assert(name@ =~= asset_id@ + seq!['_'] + signed_decimal(index as int) + ".jpg"@);
        self.file_in("keyframes", name.as_str())
    }

    /// `models/`: where downloaded model files are kept.
    pub fn models_path(&self) -> (r: String)
        ensures
            path_join_result(self.root_view(), "models"@, r@),
    {
        join_path(self.root.as_str(), "models")
    }

    /// The subdirectories created under the root.
    pub fn subdirectories() -> (r: Vec<&'static str>)
        ensures
            r@.len() == 5,
            r@[0]@ == "thumbnails"@ && r@[1]@ == "proxies"@ && r@[2]@ == "keyframes"@
                && r@[3]@ == "waveforms"@ && r@[4]@ == "models"@,
    {
        vec!["thumbnails", "proxies", "keyframes", "waveforms", "models"]
    }

    /// The subdirectories whose files count as cached derivatives (all but
    /// the models).
    pub fn derivative_directories() -> (r: Vec<&'static str>)
        ensures
            r@.len() == 4,
            r@[0]@ == "thumbnails"@ && r@[1]@ == "proxies"@ && r@[2]@ == "keyframes"@ && r@[3]@ == "waveforms"@,
    {
        vec!["thumbnails", "proxies", "keyframes", "waveforms"]
    }

    /// The path of a subdirectory under the root.
    pub fn directory(&self, name: &str) -> (r: String)
        ensures
            path_join_result(self.root_view(), name@, r@),
    {
        join_path(self.root.as_str(), name)
    }
}

} // verus!
