//! Human-readable, content-addressed file names for stored documents.
//!
//! A stored body lives at `<hash[..2]>/<basename>-<hash[..8]>.<ext>`
//! under the documents root: the basename comes from the URL path (or
//! the title), sanitized and capped; the hash prefix pins the content;
//! the extension is inferred from the MIME type.

use vstd::prelude::*;

use crate::text::{push_char, str_eq};

verus! {

/// Longest basename kept after sanitizing.
pub const MAX_BASENAME_CHARS: usize = 64;

/// The extension chosen for a MIME type; unknown types get `bin`.
pub open spec fn spec_mime_ext(m: Seq<char>) -> Seq<char> {
    if m == "application/pdf"@ {
        "pdf"@
    } else if m == "text/html"@ {
        "html"@
    } else if m == "text/plain"@ {
        "txt"@
    } else if m == "application/json"@ {
        "json"@
    } else if m == "application/xml"@ || m == "text/xml"@ {
        "xml"@
    } else if m == "image/jpeg"@ {
        "jpg"@
    } else if m == "image/png"@ {
        "png"@
    } else if m == "image/gif"@ {
        "gif"@
    } else if m == "application/msword"@ {
        "doc"@
    } else if m == "application/vnd.openxmlformats-officedocument.wordprocessingml.document"@ {
        "docx"@
    } else if m == "application/vnd.ms-excel"@ {
        "xls"@
    } else if m == "application/vnd.openxmlformats-officedocument.spreadsheetml.sheet"@ {
        "xlsx"@
    } else if m == "application/zip"@ {
        "zip"@
    } else if m == "application/gzip"@ {
        "gz"@
    } else {
        "bin"@
    }
}

/// Map a MIME type to the file extension used for stored content.
pub fn mime_to_extension(mime: &str) -> (r: &'static str)
    ensures
        r@ == spec_mime_ext(mime@),
{
    if str_eq(mime, "application/pdf") {
        "pdf"
    } else if str_eq(mime, "text/html") {
        "html"
    } else if str_eq(mime, "text/plain") {
        "txt"
    } else if str_eq(mime, "application/json") {
        "json"
    } else if str_eq(mime, "application/xml") || str_eq(mime, "text/xml") {
        "xml"
    } else if str_eq(mime, "image/jpeg") {
        "jpg"
    } else if str_eq(mime, "image/png") {
        "png"
    } else if str_eq(mime, "image/gif") {
        "gif"
    } else if str_eq(mime, "application/msword") {
        "doc"
    } else if str_eq(
        mime,
        "application/vnd.openxmlformats-officedocument.wordprocessingml.document",
    ) {
        "docx"
    } else if str_eq(mime, "application/vnd.ms-excel") {
        "xls"
    } else if str_eq(mime, "application/vnd.openxmlformats-officedocument.spreadsheetml.sheet") {
        "xlsx"
    } else if str_eq(mime, "application/zip") {
        "zip"
    } else if str_eq(mime, "application/gzip") {
        "gz"
    } else {
        "bin"
    }
}

/// Characters that survive sanitizing unchanged.
pub open spec fn spec_filename_char(c: char) -> bool {
    ('a' <= c <= 'z') || ('A' <= c <= 'Z') || ('0' <= c <= '9') || c == '-' || c == '_'
}

/// A sanitized basename: every unsafe character becomes an underscore,
/// and the result is capped at [`MAX_BASENAME_CHARS`] characters.
pub open spec fn spec_sanitize(s: Seq<char>) -> Seq<char> {
    Seq::new(if s.len() <= MAX_BASENAME_CHARS {
        s.len()
    } else {
        MAX_BASENAME_CHARS as nat
    }, |i: int|
        if spec_filename_char(s[i]) {
            s[i]
        } else {
            '_'
        })
}

/// Sanitize a basename for use in a stored file name.
pub fn sanitize_filename(name: &str) -> (r: String)
    ensures
        r@ == spec_sanitize(name@),
{
    let n = name.unicode_len();
    let cap = if n <= MAX_BASENAME_CHARS {
        n
    } else {
        MAX_BASENAME_CHARS
    };
    let mut r = String::new();
    let mut i: usize = 0;
    while i < cap
        invariant
            0 <= i <= cap,
            cap <= name@.len(),
            r@ =~= spec_sanitize(name@).take(i as int),
            i <= spec_sanitize(name@).len(),
        decreases cap - i,
    {
        let c = name.get_char(i);
        let keep = ('a' <= c && c <= 'z') || ('A' <= c && c <= 'Z') || ('0' <= c && c <= '9') || c
            == '-' || c == '_';
        if keep {
            push_char(&mut r, c);
        } else {
            push_char(&mut r, '_');
        }
        proof {
            assert(r@ =~= spec_sanitize(name@).take(i + 1));
        }
        i = i + 1;
    }
    proof {
        assert(r@ =~= spec_sanitize(name@));
    }
    r
}

/// First occurrence of `c` among the first `n` characters.
pub open spec fn spec_first_index(s: Seq<char>, c: char, n: int) -> Option<int>
    decreases n,
{
    if n <= 0 {
        Option::None
    } else {
        match spec_first_index(s, c, n - 1) {
            Option::Some(i) => Option::Some(i),
            Option::None => if s[n - 1] == c {
                Option::Some(n - 1)
            } else {
                Option::None
            },
        }
    }
}

/// Last occurrence of `c` among the first `n` characters.
pub open spec fn spec_last_index(s: Seq<char>, c: char, n: int) -> Option<int>
    decreases n,
{
    if n <= 0 {
        Option::None
    } else if s[n - 1] == c {
        Option::Some(n - 1)
    } else {
        spec_last_index(s, c, n - 1)
    }
}

/// The URL with its query cut off.
pub open spec fn spec_until_query(u: Seq<char>) -> Seq<char> {
    match spec_first_index(u, '?', u.len() as int) {
        Option::Some(q) => u.take(q),
        Option::None => u,
    }
}

/// The last path segment of the query-less URL.
pub open spec fn spec_url_segment(u: Seq<char>) -> Seq<char> {
    let pre = spec_until_query(u);
    match spec_last_index(pre, '/', pre.len() as int) {
        Option::Some(p) => pre.subrange(p + 1, pre.len() as int),
        Option::None => pre,
    }
}

/// What the basename is derived from: the URL's last path segment, the
/// title when the segment is empty, and a fixed word when both are.
pub open spec fn spec_basename_source(u: Seq<char>, title: Seq<char>) -> Seq<char> {
    if spec_url_segment(u).len() > 0 {
        spec_url_segment(u)
    } else if title.len() > 0 {
        title
    } else {
        "document"@
    }
}

/// Find the first occurrence of an ASCII character.
fn find_first(s: &str, c: char) -> (r: Option<usize>)
    ensures
        match r {
            Option::Some(i) => i < s@.len() && spec_first_index(s@, c, s@.len() as int)
                == Option::Some(i as int),
            Option::None => spec_first_index(s@, c, s@.len() as int) is None,
        },
{
    let n = s.unicode_len();
    let mut i: usize = 0;
    while i < n
        invariant
            0 <= i <= n,
            spec_first_index(s@, c, i as int) is None,
        decreases n - i,
    {
        if s.get_char(i) == c {
            proof {
                lemma_first_index_extends(s@, c, i as int, n as int);
            }
            return Option::Some(i);
        }
        i = i + 1;
    }
    Option::None
}

/// Find the last occurrence of an ASCII character before `end`.
fn find_last_before(s: &str, c: char, end: usize) -> (r: Option<usize>)
    requires
        end <= s@.len(),
    ensures
        match r {
            Option::Some(i) => i < end && spec_last_index(s@, c, end as int) == Option::Some(
                i as int),
            Option::None => spec_last_index(s@, c, end as int) is None,
        },
{
    let mut i: usize = end;
    while i > 0
        invariant
            0 <= i <= end,
            spec_last_index(s@, c, end as int) == spec_last_index(s@, c, i as int),
        decreases i,
    {
        i = i - 1;
        if s.get_char(i) == c {
            return Option::Some(i);
        }
    }
    Option::None
}

/// Once `c` is found at `i`, it stays the first occurrence for any
/// longer prefix.
proof fn lemma_first_index_extends(s: Seq<char>, c: char, i: int, n: int)
    requires
        0 <= i < n <= s.len(),
        s[i] == c,
        spec_first_index(s, c, i) is None,
    ensures
        spec_first_index(s, c, n) == Option::Some(i),
    decreases n - i,
{
    if n == i + 1 {
    } else {
        lemma_first_index_extends(s, c, i, n - 1);
    }
}

/// Derive `(basename, extension)` for a stored file from the source
/// URL, the document title and the MIME type.
pub fn extract_filename_parts(url: &str, title: &str, mime_type: &str) -> (r: (String, String))
    ensures
        r.0@ == spec_sanitize(spec_basename_source(url@, title@)),
        r.1@ == spec_mime_ext(mime_type@),
{
    let qcut = match find_first(url, '?') {
        Option::Some(q) => q,
        Option::None => url.unicode_len(),
    };
    let pre = url.substring_char(0, qcut);
    proof {
        assert(pre@ == spec_until_query(url@));
    }
    let seg = match find_last_before(pre, '/', qcut) {
        Option::Some(p) => pre.substring_char(p + 1, qcut),
        Option::None => pre,
    };
    proof {
        assert(seg@ == spec_url_segment(url@));
    }
    let base_src: &str = if seg.unicode_len() > 0 {
        seg
    } else if title.unicode_len() > 0 {
        title
    } else {
        "document"
    };
    let basename = sanitize_filename(base_src);
    let ext = mime_to_extension(mime_type);
    (basename, ext.to_owned())
}

/// The stored file name: `<basename>-<hash[..8]>.<ext>`.
pub open spec fn spec_version_filename(base: Seq<char>, hash: Seq<char>, ext: Seq<char>) -> Seq<
    char,
> {
    base + "-"@ + hash.take(8) + "."@ + ext
}

/// The path of a stored body relative to the documents root:
/// `<hash[..2]>/<basename>-<hash[..8]>.<ext>`.
pub open spec fn spec_content_rel_path(hash: Seq<char>, base: Seq<char>, ext: Seq<char>) -> Seq<
    char,
> {
    hash.take(2) + "/"@ + spec_version_filename(base, hash, ext)
}

/// Build the relative content path for a body from its hex hash, the
/// sanitized basename and the extension.
pub fn content_rel_path(hash: &str, basename: &str, ext: &str) -> (r: String)
    requires
        hash@.len() >= 8,
        vstd::utf8::is_ascii_chars(hash@),
    ensures
        r@ == spec_content_rel_path(hash@, basename@, ext@),
{
    let mut r = hash.substring_ascii(0, 2).to_owned();
    r.append("/");
    r.append(basename);
    r.append("-");
    r.append(hash.substring_ascii(0, 8));
    r.append(".");
    r.append(ext);
    proof {
        assert(hash@.subrange(0, 2) =~= hash@.take(2));
        assert(hash@.subrange(0, 8) =~= hash@.take(8));
        assert(r@ =~= spec_content_rel_path(hash@, basename@, ext@));
    }
    r
}

} // verus!
