//! Decisions behind serving stored files and browsing documents: path
//! containment, neutralized MIME types, and query normalization.  The
//! actual socket and file handling live outside.

use vstd::prelude::*;

use crate::text::{contains_dot_dot, has_dot_dot, push_char, starts_with_char, str_eq};

verus! {

/// Query parameters of a file request.
#[derive(Debug, Default)]
pub struct FileQuery {
    /// Filename to offer in the download dialog, if any.
    pub filename: Option<String>,
}

/// A served path is safe when it is relative and never climbs out of
/// its directory: not empty, not absolute, and without `..`.
pub open spec fn spec_path_is_safe(p: Seq<char>) -> bool {
    p.len() > 0 && p[0] != '/' && !has_dot_dot(p)
}

/// Resolve a requested file path against the documents root.  A path
/// that is absolute, empty, or contains `..` resolves to nothing (the
/// caller answers not-found); anything else resolves to a path inside
/// the root.  The caller must still canonicalize the result and check
/// symlinks against the root before reading.
pub fn resolve_serve_path(documents_dir: &str, path: &str) -> (r: Option<String>)
    ensures
        r is Some <==> spec_path_is_safe(path@),
        r matches Some(full) ==> full@ == documents_dir@ + "/"@ + path@,
{
    if path.unicode_len() == 0 || starts_with_char(path, '/') || contains_dot_dot(path) {
        return Option::None;
    }
    let mut full = documents_dir.to_owned();
    full.append("/");
    full.append(path);
    Option::Some(full)
}

/// Path safety: every path that `resolve_serve_path` yields lies under
/// the documents root — it extends `<root>/` with a relative path that
/// has no `..` step.
pub proof fn lemma_serve_path_contained(docs: Seq<char>, path: Seq<char>, full: Seq<char>)
    requires
        spec_path_is_safe(path),
        full == docs + "/"@ + path,
    ensures
        full.len() > docs.len(),
        full.take(docs.len() as int + 1) == docs + "/"@,
        full.skip(docs.len() as int + 1) == path,
        !has_dot_dot(path),
        path[0] != '/',
{
    reveal_strlit("/");
    assert(full.take(docs.len() as int + 1) =~= docs + "/"@);
    assert(full.skip(docs.len() as int + 1) =~= path);
}

/// Whether `s` starts with `prefix`.
pub fn str_starts_with(s: &str, prefix: &str) -> (r: bool)
    ensures
        r == (s@.len() >= prefix@.len() && s@.take(prefix@.len() as int) == prefix@),
{
    let n = s.unicode_len();
    let m = prefix.unicode_len();
    if n < m {
        return false;
    }
    let head = s.substring_char(0, m);
    proof {
        assert(head@ == s@.take(m as int));
    }
    str_eq(head, prefix)
}

/// MIME types that scripts could ride in on are served as plain text.
pub open spec fn spec_neutralized(m: Seq<char>) -> bool {
    ||| spec_is_prefix("text/html"@, m)
    ||| spec_is_prefix("application/xhtml"@, m)
    ||| spec_is_prefix("image/svg"@, m)
    ||| spec_is_prefix("text/xml"@, m)
    ||| spec_is_prefix("application/xml"@, m)
}

/// One sequence is a prefix of another.
pub open spec fn spec_is_prefix(p: Seq<char>, s: Seq<char>) -> bool {
    s.len() >= p.len() && s.take(p.len() as int) == p
}

/// The content type a stored file is served under: HTML, XHTML, SVG and
/// XML become plain text, neutralizing stored markup; everything else
/// is served as it is.
pub fn serve_content_type(mime: &str) -> (r: String)
    ensures
        spec_neutralized(mime@) ==> r@ == "text/plain; charset=utf-8"@,
        !spec_neutralized(mime@) ==> r@ == mime@,
{
    if str_starts_with(mime, "text/html") || str_starts_with(mime, "application/xhtml")
        || str_starts_with(mime, "image/svg") || str_starts_with(mime, "text/xml")
        || str_starts_with(mime, "application/xml") {
        "text/plain; charset=utf-8".to_owned()
    } else {
        mime.to_owned()
    }
}

/// A download filename with every double quote replaced.
pub open spec fn spec_quote_scrubbed(name: Seq<char>) -> Seq<char> {
    Seq::new(name.len(), |i: int|
        if name[i] == '"' {
            '_'
        } else {
            name[i]
        })
}

/// The `Content-Disposition` value for a served file: `inline`, with a
/// quote-scrubbed filename when one was requested.
pub fn content_disposition(filename: Option<&String>) -> (r: String)
    ensures
        filename is None ==> r@ == "inline"@,
        filename matches Some(name) ==> r@ == "inline; filename=\""@ + spec_quote_scrubbed(name@)
            + "\""@,
{
    match filename {
        Option::None => "inline".to_owned(),
        Option::Some(name) => {
            let mut r = "inline; filename=\"".to_owned();
            let n = name.as_str().unicode_len();
            let mut i: usize = 0;
            while i < n
                invariant
                    0 <= i <= n,
                    n == name@.len(),
                    r@ =~= "inline; filename=\""@ + spec_quote_scrubbed(name@).take(i as int),
                decreases n - i,
            {
                let c = name.as_str().get_char(i);
                if c == '"' {
                    push_char(&mut r, '_');
                } else {
                    push_char(&mut r, c);
                }
                proof {
                    assert(r@ =~= "inline; filename=\""@ + spec_quote_scrubbed(name@).take(i + 1));
                }
                i = i + 1;
            }
            r.append("\"");
            proof {
                assert(spec_quote_scrubbed(name@).take(n as int) =~= spec_quote_scrubbed(name@));
                assert(r@ =~= "inline; filename=\""@ + spec_quote_scrubbed(name@) + "\""@);
            }
            r
        },
    }
}

/// Query parameters of the document browse page.
#[derive(Debug, Default)]
pub struct BrowseParams {
    /// Comma-separated type filters.
    pub types: Option<String>,
    /// Comma-separated tag filters.
    pub tags: Option<String>,
    /// Restrict to one source.
    pub source: Option<String>,
    /// Free-text query.
    pub q: Option<String>,
    /// Requested page, one-based.
    pub page: Option<usize>,
    /// Rows per page.
    pub per_page: Option<usize>,
}

/// A value clamped into an inclusive range.
pub open spec fn spec_clamped(v: int, lo: int, hi: int) -> int {
    if v < lo {
        lo
    } else if v > hi {
        hi
    } else {
        v
    }
}

/// Clamp a requested value into an inclusive range.
pub fn clamp_usize(v: usize, lo: usize, hi: usize) -> (r: usize)
    requires
        lo <= hi,
    ensures
        r == spec_clamped(v as int, lo as int, hi as int),
{
    if v < lo {
        lo
    } else if v > hi {
        hi
    } else {
        v
    }
}

/// Split a comma-separated filter list into trimmed, nonempty tokens,
/// keeping at most `max_items` of them.  Every returned token is free
/// of commas and of leading or trailing spaces, and an input with any
/// real content (a character that is neither a space nor a comma)
/// yields at least one token.
pub fn split_filter_list(s: &str, max_items: usize) -> (r: Vec<String>)
    ensures
        r@.len() <= max_items,
        forall|k: int|
            0 <= k < r@.len() ==> (#[trigger] r@[k])@.len() > 0 && r@[k]@[0] != ' '
                && r@[k]@.last() != ' ' && (forall|c: int|
                0 <= c < r@[k]@.len() ==> r@[k]@[c] != ','),
        (max_items > 0 && exists|c: int|
            0 <= c < s@.len() && #[trigger] s@[c] != ' ' && s@[c] != ',') ==> r@.len() > 0,
{
    let n = s.unicode_len();
    let mut r: Vec<String> = Vec::new();
    let mut token = String::new();
    let mut i: usize = 0;
    while i < n
        invariant
            0 <= i <= n,
            n == s@.len(),
            r@.len() <= max_items,
            forall|c: int| 0 <= c < token@.len() ==> token@[c] != ',',
            forall|k: int|
                0 <= k < r@.len() ==> (#[trigger] r@[k])@.len() > 0 && r@[k]@[0] != ' '
                    && r@[k]@.last() != ' ' && (forall|c: int|
                    0 <= c < r@[k]@.len() ==> r@[k]@[c] != ','),
            (max_items > 0 && exists|c: int|
                0 <= c < i && #[trigger] s@[c] != ' ' && s@[c] != ',') ==> (r@.len() > 0 || (
            exists|c: int| 0 <= c < token@.len() && #[trigger] token@[c] != ' ')),
        decreases n - i,
    {
        let c = s.get_char(i);
        if c == ',' {
            let trimmed = trim_spaces(token.as_str());
            proof {
                lemma_trimmed_shape(token@);
                lemma_space_counts(token@);
                if exists|x: int| 0 <= x < token@.len() && #[trigger] token@[x] != ' ' {
                    let x = choose|x: int| 0 <= x < token@.len() && #[trigger] token@[x] != ' ';
                    lemma_nonspace_trim(token@, x);
                }
            }
            if trimmed.as_str().unicode_len() > 0 && r.len() < max_items {
                r.push(trimmed);
            }
            token = String::new();
        } else {
            let ghost old_token = token@;
            push_char(&mut token, c);
            proof {
                if s@[i as int] != ' ' {
                    assert(token@[token@.len() - 1] != ' ');
                }
                if exists|x: int| 0 <= x < old_token.len() && #[trigger] old_token[x] != ' ' {
                    let x = choose|x: int|
                        0 <= x < old_token.len() && #[trigger] old_token[x] != ' ';
                    assert(token@[x] != ' ');
                }
            }
        }
        i = i + 1;
    }
    let trimmed = trim_spaces(token.as_str());
    proof {
        lemma_trimmed_shape(token@);
        lemma_space_counts(token@);
        if exists|x: int| 0 <= x < token@.len() && #[trigger] token@[x] != ' ' {
            let x = choose|x: int| 0 <= x < token@.len() && #[trigger] token@[x] != ' ';
            lemma_nonspace_trim(token@, x);
        }
    }
    if trimmed.as_str().unicode_len() > 0 && r.len() < max_items {
        r.push(trimmed);
    }
    r
}

/// How many spaces the sequence starts with.
pub open spec fn spec_leading_spaces(s: Seq<char>) -> int
    decreases s.len(),
{
    if s.len() == 0 || s[0] != ' ' {
        0
    } else {
        1 + spec_leading_spaces(s.drop_first())
    }
}

/// How many spaces the sequence ends with.
pub open spec fn spec_trailing_spaces(s: Seq<char>) -> int
    decreases s.len(),
{
    if s.len() == 0 || s.last() != ' ' {
        0
    } else {
        1 + spec_trailing_spaces(s.drop_last())
    }
}

/// The sequence with its leading and trailing spaces removed.
pub open spec fn spec_trimmed(s: Seq<char>) -> Seq<char> {
    let a = spec_leading_spaces(s);
    let b = s.len() - spec_trailing_spaces(s);
    if b <= a {
        Seq::empty()
    } else {
        s.subrange(a, b)
    }
}

/// A prefix of spaces ending at a non-space (or the end) pins the
/// leading-space count.
proof fn lemma_leading_spaces(s: Seq<char>, k: int)
    requires
        0 <= k <= s.len(),
        forall|c: int| 0 <= c < k ==> s[c] == ' ',
        k < s.len() ==> s[k] != ' ',
    ensures
        spec_leading_spaces(s) == k,
    decreases k,
{
    if k > 0 {
        assert(forall|c: int|
            0 <= c < s.drop_first().len() ==> #[trigger] s.drop_first()[c] == s[c + 1]);
        lemma_leading_spaces(s.drop_first(), k - 1);
    }
}

/// A suffix of spaces starting after a non-space (or the start) pins
/// the trailing-space count.
proof fn lemma_trailing_spaces(s: Seq<char>, k: int)
    requires
        0 <= k <= s.len(),
        forall|c: int| s.len() - k <= c < s.len() ==> s[c] == ' ',
        k < s.len() ==> s[s.len() - k - 1] != ' ',
    ensures
        spec_trailing_spaces(s) == k,
    decreases k,
{
    if k > 0 {
        assert(forall|c: int|
            0 <= c < s.drop_last().len() ==> #[trigger] s.drop_last()[c] == s[c]);
        lemma_trailing_spaces(s.drop_last(), k - 1);
    }
}

/// The space counts stay in range and stop at a non-space.
pub proof fn lemma_space_counts(s: Seq<char>)
    ensures
        0 <= spec_leading_spaces(s) <= s.len(),
        0 <= spec_trailing_spaces(s) <= s.len(),
        spec_leading_spaces(s) < s.len() ==> s[spec_leading_spaces(s)] != ' ',
        spec_trailing_spaces(s) < s.len() ==> s[s.len() - spec_trailing_spaces(s) - 1] != ' ',
    decreases s.len(),
{
    if s.len() > 0 {
        lemma_space_counts(s.drop_first());
        lemma_space_counts(s.drop_last());
        assert(forall|c: int|
            0 <= c < s.drop_first().len() ==> #[trigger] s.drop_first()[c] == s[c + 1]);
        assert(forall|c: int|
            0 <= c < s.drop_last().len() ==> #[trigger] s.drop_last()[c] == s[c]);
    }
}

/// A nonempty trimmed string starts and ends with a non-space and is a
/// contiguous slice of the original.
pub proof fn lemma_trimmed_shape(s: Seq<char>)
    ensures
        spec_trimmed(s).len() == 0 || (spec_trimmed(s)[0] != ' ' && spec_trimmed(s).last() != ' '),
        forall|c: int|
            0 <= c < spec_trimmed(s).len() ==> #[trigger] spec_trimmed(s)[c] == s[
            spec_leading_spaces(s) + c],
{
    lemma_space_counts(s);
    let a = spec_leading_spaces(s);
    let b = s.len() - spec_trailing_spaces(s);
    if b > a {
        assert(spec_trimmed(s) == s.subrange(a, b));
        assert(a < s.len());
        assert(spec_trimmed(s)[0] == s[a]);
        assert(spec_trimmed(s).last() == s[b - 1]);
    }
}

/// A non-space character survives the trim.
pub proof fn lemma_nonspace_trim(s: Seq<char>, j: int)
    requires
        0 <= j < s.len(),
        s[j] != ' ',
    ensures
        spec_trimmed(s).len() > 0,
{
    lemma_space_counts(s);
    lemma_leading_le(s, j);
    lemma_trailing_le(s, j);
    assert(spec_leading_spaces(s) + spec_trailing_spaces(s) <= s.len() - 1);
    assert(s.len() - spec_trailing_spaces(s) > spec_leading_spaces(s));
}

/// The leading-space run stops at or before any non-space.
proof fn lemma_leading_le(s: Seq<char>, j: int)
    requires
        0 <= j < s.len(),
        s[j] != ' ',
    ensures
        spec_leading_spaces(s) <= j,
    decreases j,
{
    if j > 0 && s[0] == ' ' {
        assert(s.drop_first()[j - 1] == s[j]);
        lemma_leading_le(s.drop_first(), j - 1);
    }
}

/// The trailing-space run stops at or before any non-space.
proof fn lemma_trailing_le(s: Seq<char>, j: int)
    requires
        0 <= j < s.len(),
        s[j] != ' ',
    ensures
        spec_trailing_spaces(s) <= s.len() - 1 - j,
    decreases s.len() - j,
{
    if j < s.len() - 1 && s.last() == ' ' {
        assert(s.drop_last()[j] == s[j]);
        lemma_trailing_le(s.drop_last(), j);
    }
}

/// Remove leading and trailing spaces.
pub fn trim_spaces(s: &str) -> (r: String)
    ensures
        r@ == spec_trimmed(s@),
{
    let n = s.unicode_len();
    let mut start: usize = 0;
    while start < n && s.get_char(start) == ' '
        invariant
            0 <= start <= n,
            n == s@.len(),
            forall|c: int| 0 <= c < start ==> s@[c] == ' ',
        decreases n - start,
    {
        start = start + 1;
    }
    proof {
        lemma_leading_spaces(s@, start as int);
    }
    let mut end: usize = n;
    while end > start && s.get_char(end - 1) == ' '
        invariant
            start <= end <= n,
            n == s@.len(),
            forall|c: int| end <= c < n ==> s@[c] == ' ',
            forall|c: int| 0 <= c < start ==> s@[c] == ' ',
        decreases end,
    {
        end = end - 1;
    }
    let r = s.substring_char(start, end).to_owned();
    proof {
        assert(r@ == s@.subrange(start as int, end as int));
        if end == start {
            // the first scan stopped at a non-space unless it hit the
            // end; the second scan reaching `start` rules that out, so
            // the whole string is spaces and the trim is empty
            assert(start == n);
            lemma_space_counts(s@);
            assert(r@ =~= spec_trimmed(s@));
        } else {
            lemma_trailing_spaces(s@, (n - end) as int);
            assert(r@ =~= spec_trimmed(s@));
        }
    }
    r
}

} // verus!
