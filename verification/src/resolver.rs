//! URL resolution for known file-sharing providers: provider detection,
//! static URL rewrites, and the HTML-scraping heuristics that unwrap
//! landing pages into direct download links.

use vstd::prelude::*;
use vstd::string::StrSliceExecFns;
use crate::strutil::{
    match_at, spec_index_of, spec_rindex_of, spec_lower, spec_ends_with, index_of_from, index_of,
    rindex_of_upto, is_match_at, starts_with, ends_with, to_ascii_lower, chars_eq, str_chars,
    string_from_chars, sub_vec, push_range,
};

verus! {

/// A recognized file-hosting site.
#[derive(Debug, Clone, Copy, PartialEq, Eq, Structural)]
pub enum Provider {
    Pixeldrain,
    GoogleDrive,
    Mediafire,
    Mega,
    Unknown,
}

/// The lowercased host component of an absolute URL, or `None` where the
/// text does not parse as a URL with a host.
pub uninterp spec fn url_host_of(s: Seq<char>) -> Option<Seq<char>>;

/// The path component of an absolute URL, or `None` where the text does
/// not parse.
pub uninterp spec fn url_path_of(s: Seq<char>) -> Option<Seq<char>>;

/// The decoded query pairs of an absolute URL in order, or `None` where
/// the text does not parse.
pub uninterp spec fn url_query_pairs_of(s: Seq<char>) -> Option<Seq<(Seq<char>, Seq<char>)>>;

/// The lowercased host of `url`.
///
/// Relies on `url::Url::parse` and `url::Url::host_str`: the host
/// component of the parsed URL, a function of the text alone, lowercased
/// here character by character.
#[verifier::external_body]
fn url_host_lower(url: &str) -> (r: Option<String>)
    ensures
        match r {
            Some(h) => url_host_of(url@) == Some(h@),
            None => url_host_of(url@) is None,
        },
{
    match url::Url::parse(url) {
        Ok(u) => u.host_str().map(|h| h.to_ascii_lowercase()),
        Err(_) => None,
    }
}

/// The path of `url`.
///
/// Relies on `url::Url::parse` and `url::Url::path`: the path component
/// of the parsed URL, a function of the text alone.
#[verifier::external_body]
pub(crate) fn url_path(url: &str) -> (r: Option<String>)
    ensures
        match r {
            Some(p) => url_path_of(url@) == Some(p@),
            None => url_path_of(url@) is None,
        },
{
    match url::Url::parse(url) {
        Ok(u) => Some(u.path().to_string()),
        Err(_) => None,
    }
}

/// The decoded query pairs of `url`, in order.
///
/// Relies on `url::Url::parse` and `url::Url::query_pairs`: the decoded
/// key-value pairs of the query string, a function of the text alone.
#[verifier::external_body]
fn url_query_pairs(url: &str) -> (r: Option<Vec<(String, String)>>)
    ensures
        match r {
            Some(ps) => url_query_pairs_of(url@) == Some(ps.deep_view()),
            None => url_query_pairs_of(url@) is None,
        },
{
    match url::Url::parse(url) {
        Ok(u) => Some(u.query_pairs().map(|(k, v)| (k.into_owned(), v.into_owned())).collect()),
        Err(_) => None,
    }
}

/// The provider a URL's host denotes.
pub open spec fn spec_detect_provider(u: Seq<char>) -> Provider {
    match url_host_of(u) {
        None => Provider::Unknown,
        Some(h) => {
            if h == "pixeldrain.com"@ || h == "www.pixeldrain.com"@ {
                Provider::Pixeldrain
            } else if h == "drive.google.com"@ || h == "docs.google.com"@ {
                Provider::GoogleDrive
            } else if spec_ends_with(h, "mediafire.com"@) {
                Provider::Mediafire
            } else if h == "mega.nz"@ || h == "mega.co.nz"@ {
                Provider::Mega
            } else {
                Provider::Unknown
            }
        },
    }
}

/// Detect the provider behind a URL by its host.
pub fn detect_provider(url: &str) -> (r: Provider)
    ensures
        r == spec_detect_provider(url@),
{
    let host = match url_host_lower(url) {
        Some(h) => h,
        None => {
            return Provider::Unknown;
        },
    };
    let h = str_chars(host.as_str());
    if chars_eq(&h, &str_chars("pixeldrain.com")) || chars_eq(&h, &str_chars("www.pixeldrain.com")) {
        Provider::Pixeldrain
    } else if chars_eq(&h, &str_chars("drive.google.com")) || chars_eq(
        &h,
        &str_chars("docs.google.com"),
    ) {
        Provider::GoogleDrive
    } else if ends_with(&h, &str_chars("mediafire.com")) {
        Provider::Mediafire
    } else if chars_eq(&h, &str_chars("mega.nz")) || chars_eq(&h, &str_chars("mega.co.nz")) {
        Provider::Mega
    } else {
        Provider::Unknown
    }
}

/// A content type announces HTML when, lowercased, it holds `text/html`
/// or `application/xhtml`.
pub open spec fn spec_is_html_content_type(ct: Option<Seq<char>>) -> bool {
    match ct {
        None => false,
        Some(v) => spec_index_of(spec_lower(v), "text/html"@, 0) >= 0 || spec_index_of(
            spec_lower(v),
            "application/xhtml"@,
            0,
        ) >= 0,
    }
}

pub fn is_html_content_type(content_type: Option<&str>) -> (r: bool)
    ensures
        r == spec_is_html_content_type(match content_type {
            Some(v) => Some(v@),
            None => None,
        }),
{
    let value = match content_type {
        Some(v) => v,
        None => {
            return false;
        },
    };
    let lower = to_ascii_lower(&str_chars(value));
    contains_chars(&lower, &str_chars("text/html")) || contains_chars(
        &lower,
        &str_chars("application/xhtml"),
    )
}

fn contains_chars(hay: &Vec<char>, needle: &Vec<char>) -> (r: bool)
    ensures
        r == (spec_index_of(hay@, needle@, 0) >= 0),
{
    match index_of_from(hay, needle, 0) {
        Some(_) => true,
        None => false,
    }
}

/// The path with trailing slashes removed.
pub open spec fn spec_trim_end_slashes(s: Seq<char>) -> Seq<char>
    decreases s.len(),
{
    if s.len() > 0 && s.last() == '/' {
        spec_trim_end_slashes(s.drop_last())
    } else {
        s
    }
}

fn trim_end_slashes(s: &Vec<char>) -> (r: Vec<char>)
    ensures
        r@ == spec_trim_end_slashes(s@),
{
    let mut end: usize = s.len();
    proof {
        assert(s@.subrange(0, s@.len() as int) =~= s@);
    }
    while end > 0 && s[end - 1] == '/'
        invariant
            0 <= end <= s@.len(),
            spec_trim_end_slashes(s@) == spec_trim_end_slashes(s@.subrange(0, end as int)),
        decreases end,
    {
        proof {
            assert(s@.subrange(0, end as int).drop_last() =~= s@.subrange(0, end as int - 1));
        }
        end = end - 1;
    }
    proof {
        if end > 0 {
            assert(s@.subrange(0, end as int).last() != '/');
        }
    }
    sub_vec(s, 0, end)
}

/// The non-empty `/`-separated path segments at or after position `i`.
pub open spec fn spec_path_segments(s: Seq<char>, i: int) -> Seq<Seq<char>>
    decreases s.len() - i,
        via spec_path_segments_dec
{
    if i < 0 || i >= s.len() {
        seq![]
    } else {
        let j = spec_index_of(s, seq!['/'], i);
        if j == -1 {
            seq![s.subrange(i, s.len() as int)]
        } else {
            (if j > i {
                seq![s.subrange(i, j)]
            } else {
                seq![]
            }) + spec_path_segments(s, j + 1)
        }
    }
}

#[via_fn]
proof fn spec_path_segments_dec(s: Seq<char>, i: int) {
    if !(i < 0 || i >= s.len()) {
        crate::strutil::lemma_index_of_props(s, seq!['/'], i);
    }
}

fn path_segments(s: &Vec<char>) -> (r: Vec<Vec<char>>)
    ensures
        r.deep_view() == spec_path_segments(s@, 0),
{
    let mut r: Vec<Vec<char>> = Vec::new();
    let mut i: usize = 0;
    let slash = str_chars("/");
    proof {
        reveal_strlit("/");
        assert(slash@ =~= seq!['/']);
    }
    loop
        invariant
            0 <= i,
            slash@ == seq!['/'],
            spec_path_segments(s@, 0) == r.deep_view() + spec_path_segments(s@, i as int),
        decreases s@.len() + 1 - i,
    {
        if i >= s.len() {
            proof {
                assert(r.deep_view() + spec_path_segments(s@, i as int) =~= r.deep_view());
            }
            return r;
        }
        let ghost pre = r.deep_view();
        match index_of_from(s, &slash, i) {
            None => {
                let piece = sub_vec(s, i, s.len());
                r.push(piece);
                proof {
                    crate::strutil::lemma_vec_chars_deep(r@[r@.len() - 1]);
                    assert forall|k: int| 0 <= k < pre.len() implies #[trigger] r.deep_view()[k]
                        == pre[k] by {
                        assert(r.deep_view()[k] == r@[k].deep_view());
                    }
                    assert(r.deep_view() =~= pre.push(s@.subrange(i as int, s@.len() as int)));
                    assert(r.deep_view() =~= pre + spec_path_segments(s@, i as int));
                    assert(spec_path_segments(s@, s@.len() as int) =~= Seq::<Seq<char>>::empty());
                    assert(r.deep_view() + spec_path_segments(s@, s@.len() as int) =~= r.deep_view());
                }
                i = s.len();
                return r;
            },
            Some(j) => {
                proof {
                    crate::strutil::lemma_index_of_props(s@, slash@, i as int);
                }
                if j > i {
                    let piece = sub_vec(s, i, j);
                    r.push(piece);
                    proof {
                        crate::strutil::lemma_vec_chars_deep(r@[r@.len() - 1]);
                        assert forall|k: int| 0 <= k < pre.len() implies #[trigger] r.deep_view()[k]
                            == pre[k] by {
                            assert(r.deep_view()[k] == r@[k].deep_view());
                        }
                        assert(r.deep_view() =~= pre.push(s@.subrange(i as int, j as int)));
                        assert(r.deep_view() + spec_path_segments(s@, j + 1) =~= pre
                            + spec_path_segments(s@, i as int));
                    }
                } else {
                    proof {
                        assert(r.deep_view() + spec_path_segments(s@, j + 1) =~= pre
                            + spec_path_segments(s@, i as int));
                    }
                }
                i = j + 1;
            },
        }
    }
}

/// The static pixeldrain rewrite: a `/d/<id>` share link becomes the
/// direct filesystem API URL.
pub open spec fn spec_resolve_pixeldrain(u: Seq<char>) -> Option<Seq<char>> {
    match url_host_of(u) {
        None => None,
        Some(h) => {
            if h != "pixeldrain.com"@ && h != "www.pixeldrain.com"@ {
                None
            } else {
                match url_path_of(u) {
                    None => None,
                    Some(p) => {
                        let segs = spec_path_segments(spec_trim_end_slashes(p), 0);
                        if segs.len() >= 2 && segs[0] == "d"@ {
                            Some("https://pixeldrain.com/api/filesystem/"@ + segs[1])
                        } else {
                            None
                        }
                    },
                }
            }
        },
    }
}

pub fn resolve_pixeldrain(url: &str) -> (r: Option<String>)
    ensures
        match r {
            Some(s) => spec_resolve_pixeldrain(url@) == Some(s@),
            None => spec_resolve_pixeldrain(url@) is None,
        },
{
    let host = match url_host_lower(url) {
        Some(h) => h,
        None => {
            return None;
        },
    };
    let h = str_chars(host.as_str());
    if !chars_eq(&h, &str_chars("pixeldrain.com")) && !chars_eq(
        &h,
        &str_chars("www.pixeldrain.com"),
    ) {
        return None;
    }
    let path = match url_path(url) {
        Some(p) => p,
        None => {
            return None;
        },
    };
    let p = trim_end_slashes(&str_chars(path.as_str()));
    let segs = path_segments(&p);
    proof {
        if segs@.len() >= 1 {
            crate::strutil::lemma_vec_chars_deep(segs@[0]);
            assert(segs.deep_view()[0] == segs@[0]@);
        }
        if segs@.len() >= 2 {
            crate::strutil::lemma_vec_chars_deep(segs@[1]);
            assert(segs.deep_view()[1] == segs@[1]@);
        }
    }
    if segs.len() >= 2 && chars_eq(&segs[0], &str_chars("d")) {
        let mut out = str_chars("https://pixeldrain.com/api/filesystem/");
        let id = &segs[1];
        push_range(&mut out, id, 0, id.len());
        proof {
            assert(id@.subrange(0, id@.len() as int) =~= id@);
        }
        Some(string_from_chars(&out))
    } else {
        None
    }
}

/// The identifier embedded in a Google Drive share URL: from a
/// `/file/d/<id>` path, else from the `id` query parameter.
pub open spec fn spec_gdrive_id(u: Seq<char>) -> Option<Seq<char>> {
    match url_host_of(u) {
        None => None,
        Some(h) => {
            if h != "drive.google.com"@ && h != "docs.google.com"@ {
                None
            } else {
                match url_path_of(u) {
                    None => None,
                    Some(p) => {
                        let segs = spec_path_segments(spec_trim_end_slashes(p), 0);
                        if segs.len() >= 3 && segs[0] == "file"@ && segs[1] == "d"@ {
                            Some(segs[2])
                        } else {
                            match url_query_pairs_of(u) {
                                None => None,
                                Some(ps) => spec_first_id_pair(ps, 0),
                            }
                        }
                    },
                }
            }
        },
    }
}

/// The value of the first `id` query pair at or after position `i`.
pub open spec fn spec_first_id_pair(ps: Seq<(Seq<char>, Seq<char>)>, i: int) -> Option<Seq<char>>
    decreases ps.len() - i,
{
    if i < 0 || i >= ps.len() {
        None
    } else if ps[i].0 == "id"@ {
        Some(ps[i].1)
    } else {
        spec_first_id_pair(ps, i + 1)
    }
}

pub fn resolve_google_drive_id(url: &str) -> (r: Option<String>)
    ensures
        match r {
            Some(s) => spec_gdrive_id(url@) == Some(s@),
            None => spec_gdrive_id(url@) is None,
        },
{
    let host = match url_host_lower(url) {
        Some(h) => h,
        None => {
            return None;
        },
    };
    let h = str_chars(host.as_str());
    if !chars_eq(&h, &str_chars("drive.google.com")) && !chars_eq(
        &h,
        &str_chars("docs.google.com"),
    ) {
        return None;
    }
    let path = match url_path(url) {
        Some(p) => p,
        None => {
            return None;
        },
    };
    let p = trim_end_slashes(&str_chars(path.as_str()));
    let segs = path_segments(&p);
    proof {
        if segs@.len() >= 1 {
            crate::strutil::lemma_vec_chars_deep(segs@[0]);
            assert(segs.deep_view()[0] == segs@[0]@);
        }
        if segs@.len() >= 2 {
            crate::strutil::lemma_vec_chars_deep(segs@[1]);
            assert(segs.deep_view()[1] == segs@[1]@);
        }
        if segs@.len() >= 3 {
            crate::strutil::lemma_vec_chars_deep(segs@[2]);
            assert(segs.deep_view()[2] == segs@[2]@);
        }
    }
    if segs.len() >= 3 && chars_eq(&segs[0], &str_chars("file")) && chars_eq(
        &segs[1],
        &str_chars("d"),
    ) {
        return Some(string_from_chars(&segs[2]));
    }
    let pairs = match url_query_pairs(url) {
        Some(ps) => ps,
        None => {
            return None;
        },
    };
    proof {
        assert(spec_gdrive_id(url@) == spec_first_id_pair(pairs.deep_view(), 0));
    }
    let mut i: usize = 0;
    while i < pairs.len()
        invariant
            0 <= i <= pairs@.len(),
            spec_gdrive_id(url@) == spec_first_id_pair(pairs.deep_view(), i as int),
        decreases pairs@.len() - i,
    {
        proof {
            assert(pairs.deep_view()[i as int] == (pairs@[i as int].0@, pairs@[i as int].1@));
        }
        if chars_eq(&str_chars(pairs[i].0.as_str()), &str_chars("id")) {
            return Some(pairs[i].1.clone());
        }
        i = i + 1;
    }
    None
}

/// The direct-download form of a Google Drive identifier.
pub open spec fn spec_gdrive_direct(id: Seq<char>) -> Seq<char> {
    "https://drive.google.com/uc?export=download&id="@ + id
}

pub fn build_google_drive_direct(id: &str) -> (r: String)
    ensures
        r@ == spec_gdrive_direct(id@),
{
    let mut out = str_chars("https://drive.google.com/uc?export=download&id=");
    let idc = str_chars(id);
    push_range(&mut out, &idc, 0, idc.len());
    proof {
        assert(idc@.subrange(0, idc@.len() as int) =~= idc@);
    }
    string_from_chars(&out)
}

/// A list holds a URL already.
pub open spec fn spec_seq_has(s: Seq<Seq<char>>, x: Seq<char>) -> bool {
    exists|j: int| 0 <= j < s.len() && s[j] == x
}

/// Append a URL unless the list holds it already: dedup preserving order.
pub open spec fn spec_add_unique(out: Seq<Seq<char>>, x: Seq<char>) -> Seq<Seq<char>> {
    if spec_seq_has(out, x) {
        out
    } else {
        out.push(x)
    }
}

fn has_str(out: &Vec<String>, x: &Vec<char>) -> (r: bool)
    ensures
        r == spec_seq_has(out.deep_view(), x@),
{
    let mut j: usize = 0;
    while j < out.len()
        invariant
            0 <= j <= out@.len(),
            forall|k: int| 0 <= k < j ==> #[trigger] out.deep_view()[k] != x@,
        decreases out@.len() - j,
    {
        proof {
            assert(out.deep_view()[j as int] == out@[j as int]@);
        }
        if chars_eq(&str_chars(out[j].as_str()), x) {
            return true;
        }
        j = j + 1;
    }
    false
}

pub fn push_unique_url(out: &mut Vec<String>, x: String)
    ensures
        final(out).deep_view() == spec_add_unique(old(out).deep_view(), x@),
{
    let xc = str_chars(x.as_str());
    if !has_str(out, &xc) {
        let ghost pre = out.deep_view();
        out.push(x);
        proof {
            assert forall|k: int| 0 <= k < pre.len() implies #[trigger] out.deep_view()[k]
                == pre[k] by {
                assert(out.deep_view()[k] == out@[k]@);
            }
            assert(out.deep_view()[pre.len() as int] == out@[pre.len() as int]@);
            assert(out.deep_view() =~= pre.push(xc@));
        }
    }
}

/// The candidate list a URL list expands to: for each URL, its pixeldrain
/// rewrite, its Google Drive direct form, then the URL itself, each added
/// once in order.
pub open spec fn spec_resolve_candidates(urls: Seq<Seq<char>>, i: int, out: Seq<Seq<char>>) -> Seq<
    Seq<char>,
>
    decreases urls.len() - i,
{
    if i < 0 || i >= urls.len() {
        out
    } else {
        let o1 = match spec_resolve_pixeldrain(urls[i]) {
            Some(r) => spec_add_unique(out, r),
            None => out,
        };
        let o2 = match spec_gdrive_id(urls[i]) {
            Some(id) => spec_add_unique(o1, spec_gdrive_direct(id)),
            None => o1,
        };
        spec_resolve_candidates(urls, i + 1, spec_add_unique(o2, urls[i]))
    }
}

/// Expand each URL with its provider rewrites prepended, removing
/// duplicates while keeping order.
pub fn resolve_url_candidates(urls: Vec<String>) -> (r: Vec<String>)
    ensures
        r.deep_view() == spec_resolve_candidates(urls.deep_view(), 0, Seq::<Seq<char>>::empty()),
{
    let mut out: Vec<String> = Vec::new();
    proof {
        assert(out.deep_view() =~= Seq::<Seq<char>>::empty());
    }
    let mut i: usize = 0;
    while i < urls.len()
        invariant
            0 <= i <= urls@.len(),
            spec_resolve_candidates(urls.deep_view(), 0, Seq::<Seq<char>>::empty())
                == spec_resolve_candidates(urls.deep_view(), i as int, out.deep_view()),
        decreases urls@.len() - i,
    {
        proof {
            assert(urls.deep_view()[i as int] == urls@[i as int]@);
        }
        match resolve_pixeldrain(urls[i].as_str()) {
            Some(rewritten) => {
                push_unique_url(&mut out, rewritten);
            },
            None => {},
        }
        match resolve_google_drive_id(urls[i].as_str()) {
            Some(id) => {
                let direct = build_google_drive_direct(id.as_str());
                push_unique_url(&mut out, direct);
            },
            None => {},
        }
        push_unique_url(&mut out, urls[i].clone());
        i = i + 1;
    }
    out
}

/// The characters a confirm token may hold.
pub open spec fn spec_is_token_char(c: char) -> bool {
    ('0' <= c && c <= '9') || ('a' <= c && c <= 'z') || ('A' <= c && c <= 'Z') || c == '_' || c
        == '-'
}

/// The run of token characters starting at `i`.
pub open spec fn spec_take_token(h: Seq<char>, i: int) -> Seq<char>
    decreases h.len() - i,
{
    if i < 0 || i >= h.len() || !spec_is_token_char(h[i]) {
        seq![]
    } else {
        seq![h[i]] + spec_take_token(h, i + 1)
    }
}

/// The longest token-character run after the first occurrence of
/// `marker`, if non-empty.
pub open spec fn spec_token_after(h: Seq<char>, marker: Seq<char>) -> Option<Seq<char>> {
    let p = spec_index_of(h, marker, 0);
    if p == -1 {
        None
    } else {
        let tok = spec_take_token(h, p + marker.len());
        if tok.len() == 0 {
            None
        } else {
            Some(tok)
        }
    }
}

pub fn extract_token_after(html: &Vec<char>, marker: &Vec<char>) -> (r: Option<Vec<char>>)
    ensures
        match r {
            Some(t) => spec_token_after(html@, marker@) == Some(t@),
            None => spec_token_after(html@, marker@) is None,
        },
{
    let p = match index_of(html, marker) {
        Some(p) => p,
        None => {
            return None;
        },
    };
    proof {
        crate::strutil::lemma_index_of_props(html@, marker@, 0);
        assert(match_at(html@, marker@, p as int));
        assert(p + marker@.len() <= html@.len());
    }
    let hl = html.len();
    assert(p + marker@.len() <= hl);
    let mut tok: Vec<char> = Vec::new();
    let mut i: usize = p + marker.len();
    let ghost st = i as int;
    while i < html.len() && is_token_char(html[i])
        invariant
            st <= i,
            0 <= st,
            i <= html@.len() || i == st,
            tok@ + spec_take_token(html@, i as int) == spec_take_token(html@, st),
        decreases html@.len() - i,
    {
        tok.push(html[i]);
        proof {
            assert(tok@ + spec_take_token(html@, i + 1) =~= tok@.drop_last() + spec_take_token(
                html@,
                i as int,
            ));
        }
        i = i + 1;
    }
    if tok.len() == 0 {
        None
    } else {
        Some(tok)
    }
}

fn is_token_char(c: char) -> (r: bool)
    ensures
        r == spec_is_token_char(c),
{
    ('0' <= c && c <= '9') || ('a' <= c && c <= 'z') || ('A' <= c && c <= 'Z') || c == '_' || c
        == '-'
}

/// The attribute value following the first `attr` in `s`, up to the next
/// double quote.
pub open spec fn spec_attr_value(s: Seq<char>, attr: Seq<char>) -> Option<Seq<char>> {
    let p = spec_index_of(s, attr, 0);
    if p == -1 {
        None
    } else {
        let st = p + attr.len();
        let e = spec_index_of(s, seq!['"'], st);
        if e == -1 {
            None
        } else {
            Some(s.subrange(st, e))
        }
    }
}

pub fn extract_attr_value(slice: &Vec<char>, attr: &Vec<char>) -> (r: Option<Vec<char>>)
    ensures
        match r {
            Some(t) => spec_attr_value(slice@, attr@) == Some(t@),
            None => spec_attr_value(slice@, attr@) is None,
        },
{
    let p = match index_of(slice, attr) {
        Some(p) => p,
        None => {
            return None;
        },
    };
    proof {
        crate::strutil::lemma_index_of_props(slice@, attr@, 0);
    }
    let hl = slice.len();
    assert(p + attr@.len() <= hl);
    let st = p + attr.len();
    let quote = str_chars("\"");
    proof {
        reveal_strlit("\"");
        assert(quote@ =~= seq!['"']);
    }
    let e = match index_of_from(slice, &quote, st) {
        Some(e) => e,
        None => {
            return None;
        },
    };
    proof {
        crate::strutil::lemma_index_of_props(slice@, quote@, st as int);
    }
    Some(sub_vec(slice, st, e))
}

/// The `content` attribute of the meta tag carrying `property`.
pub open spec fn spec_meta_content(h: Seq<char>, property: Seq<char>) -> Option<Seq<char>> {
    let marker = "property=\""@ + property + seq!['"'];
    let p = spec_index_of(h, marker, 0);
    if p == -1 {
        None
    } else {
        spec_attr_value(h.subrange(p, h.len() as int), "content=\""@)
    }
}

pub fn extract_meta_content(html: &Vec<char>, property: &Vec<char>) -> (r: Option<Vec<char>>)
    ensures
        match r {
            Some(t) => spec_meta_content(html@, property@) == Some(t@),
            None => spec_meta_content(html@, property@) is None,
        },
{
    let mut marker = str_chars("property=\"");
    push_range(&mut marker, property, 0, property.len());
    marker.push('"');
    proof {
        reveal_strlit("\"");
        assert(property@.subrange(0, property@.len() as int) =~= property@);
        assert(marker@ =~= "property=\""@ + property@ + seq!['"']);
    }
    let p = match index_of(html, &marker) {
        Some(p) => p,
        None => {
            return None;
        },
    };
    proof {
        crate::strutil::lemma_index_of_props(html@, marker@, 0);
    }
    let slice = sub_vec(html, p, html.len());
    extract_attr_value(&slice, &str_chars("content=\""))
}

/// The most recent `attr` value opened before the first `marker`: the
/// text after the last `attr` in the prefix, up to a double quote when
/// one follows, else the whole remainder of the prefix.
pub open spec fn spec_attr_before(h: Seq<char>, marker: Seq<char>, attr: Seq<char>) -> Option<
    Seq<char>,
> {
    let p = spec_index_of(h, marker, 0);
    if p == -1 {
        None
    } else {
        let slice = h.subrange(0, p);
        let rp = spec_rindex_of(slice, attr, p);
        if rp == -1 {
            None
        } else {
            let rest = slice.subrange(rp + attr.len(), slice.len() as int);
            let e = spec_index_of(rest, seq!['"'], 0);
            if e == -1 {
                Some(rest)
            } else {
                Some(rest.subrange(0, e))
            }
        }
    }
}

pub fn extract_attr_before(html: &Vec<char>, marker: &Vec<char>, attr: &Vec<char>) -> (r: Option<
    Vec<char>,
>)
    ensures
        match r {
            Some(t) => spec_attr_before(html@, marker@, attr@) == Some(t@),
            None => spec_attr_before(html@, marker@, attr@) is None,
        },
{
    let p = match index_of(html, marker) {
        Some(p) => p,
        None => {
            return None;
        },
    };
    proof {
        crate::strutil::lemma_index_of_props(html@, marker@, 0);
    }
    let slice = sub_vec(html, 0, p);
    let rp = match rindex_of_upto(&slice, attr, p) {
        Some(rp) => rp,
        None => {
            return None;
        },
    };
    proof {
        lemma_rindex_props(slice@, attr@, p as int);
    }
    let sl = slice.len();
    assert(rp + attr@.len() <= sl);
    let rest = sub_vec(&slice, rp + attr.len(), slice.len());
    let quote = str_chars("\"");
    proof {
        reveal_strlit("\"");
        assert(quote@ =~= seq!['"']);
    }
    match index_of(&rest, &quote) {
        None => Some(rest),
        Some(e) => {
            proof {
                crate::strutil::lemma_index_of_props(rest@, quote@, 0);
            }
            Some(sub_vec(&rest, 0, e))
        },
    }
}

/// A non-negative reverse find is a real match position.
proof fn lemma_rindex_props(hay: Seq<char>, needle: Seq<char>, upto: int)
    ensures
        spec_rindex_of(hay, needle, upto) == -1 || (0 <= spec_rindex_of(hay, needle, upto) <= upto
            && match_at(hay, needle, spec_rindex_of(hay, needle, upto))),
    decreases upto + 1,
{
    if upto < 0 {
    } else if match_at(hay, needle, upto) {
    } else {
        lemma_rindex_props(hay, needle, upto - 1);
    }
}

/// The first link of an `href="..."` attribute at or after `off` whose
/// text starts with `prefix`.
pub open spec fn spec_first_href_prefix(h: Seq<char>, prefix: Seq<char>, off: int) -> Option<
    Seq<char>,
>
    decreases h.len() - off,
        via spec_first_href_prefix_dec
{
    if off < 0 {
        None
    } else {
        let p = spec_index_of(h, "href=\""@, off);
        if p == -1 {
            None
        } else {
            let st = p + 6;
            let e = spec_index_of(h, seq!['"'], st);
            if e == -1 {
                None
            } else {
                let link = h.subrange(st, e);
                if match_at(link, prefix, 0) {
                    Some(link)
                } else {
                    spec_first_href_prefix(h, prefix, e + 1)
                }
            }
        }
    }
}

#[via_fn]
proof fn spec_first_href_prefix_dec(h: Seq<char>, prefix: Seq<char>, off: int) {
    if off >= 0 {
        reveal_strlit("href=\"");
        crate::strutil::lemma_index_of_props(h, "href=\""@, off);
        let p = spec_index_of(h, "href=\""@, off);
        if p != -1 {
            crate::strutil::lemma_index_of_props(h, seq!['"'], p + 6);
        }
    }
}

/// The first link of an `href="..."` attribute at or after `off` that
/// starts with `http` and holds `keyword`.
pub open spec fn spec_first_href_keyword(h: Seq<char>, keyword: Seq<char>, off: int) -> Option<
    Seq<char>,
>
    decreases h.len() - off,
        via spec_first_href_keyword_dec
{
    if off < 0 {
        None
    } else {
        let p = spec_index_of(h, "href=\""@, off);
        if p == -1 {
            None
        } else {
            let st = p + 6;
            let e = spec_index_of(h, seq!['"'], st);
            if e == -1 {
                None
            } else {
                let link = h.subrange(st, e);
                if match_at(link, "http"@, 0) && spec_index_of(link, keyword, 0) >= 0 {
                    Some(link)
                } else {
                    spec_first_href_keyword(h, keyword, e + 1)
                }
            }
        }
    }
}

#[via_fn]
proof fn spec_first_href_keyword_dec(h: Seq<char>, keyword: Seq<char>, off: int) {
    if off >= 0 {
        reveal_strlit("href=\"");
        crate::strutil::lemma_index_of_props(h, "href=\""@, off);
        let p = spec_index_of(h, "href=\""@, off);
        if p != -1 {
            crate::strutil::lemma_index_of_props(h, seq!['"'], p + 6);
        }
    }
}

pub fn extract_first_href_prefix(html: &Vec<char>, prefix: &Vec<char>) -> (r: Option<Vec<char>>)
    ensures
        match r {
            Some(t) => spec_first_href_prefix(html@, prefix@, 0) == Some(t@),
            None => spec_first_href_prefix(html@, prefix@, 0) is None,
        },
{
    let href = str_chars("href=\"");
    let quote = str_chars("\"");
    proof {
        reveal_strlit("href=\"");
        reveal_strlit("\"");
        assert(href@ =~= "href=\""@);
        assert(quote@ =~= seq!['"']);
    }
    let mut off: usize = 0;
    loop
        invariant
            href@ == "href=\""@,
            quote@ == seq!['"'],
            0 <= off,
            spec_first_href_prefix(html@, prefix@, 0) == spec_first_href_prefix(
                html@,
                prefix@,
                off as int,
            ),
        decreases html@.len() + 1 - off,
    {
        let p = match index_of_from(html, &href, off) {
            Some(p) => p,
            None => {
                return None;
            },
        };
        proof {
            reveal_strlit("href=\"");
            crate::strutil::lemma_index_of_props(html@, href@, off as int);
            assert(href@.len() == 6);
        }
        let hl = html.len();
        assert(p + 6 <= hl);
        let st = p + 6;
        let e = match index_of_from(html, &quote, st) {
            Some(e) => e,
            None => {
                return None;
            },
        };
        proof {
            crate::strutil::lemma_index_of_props(html@, quote@, st as int);
        }
        let link = sub_vec(html, st, e);
        if starts_with(&link, prefix) {
            return Some(link);
        }
        off = e + 1;
    }
}

pub fn extract_first_href_with_keyword(html: &Vec<char>, keyword: &Vec<char>) -> (r: Option<
    Vec<char>,
>)
    ensures
        match r {
            Some(t) => spec_first_href_keyword(html@, keyword@, 0) == Some(t@),
            None => spec_first_href_keyword(html@, keyword@, 0) is None,
        },
{
    let href = str_chars("href=\"");
    let quote = str_chars("\"");
    proof {
        reveal_strlit("href=\"");
        reveal_strlit("\"");
        assert(href@ =~= "href=\""@);
        assert(quote@ =~= seq!['"']);
    }
    let http = str_chars("http");
    let mut off: usize = 0;
    loop
        invariant
            href@ == "href=\""@,
            quote@ == seq!['"'],
            http@ == "http"@,
            0 <= off,
            spec_first_href_keyword(html@, keyword@, 0) == spec_first_href_keyword(
                html@,
                keyword@,
                off as int,
            ),
        decreases html@.len() + 1 - off,
    {
        let p = match index_of_from(html, &href, off) {
            Some(p) => p,
            None => {
                return None;
            },
        };
        proof {
            reveal_strlit("href=\"");
            crate::strutil::lemma_index_of_props(html@, href@, off as int);
            assert(href@.len() == 6);
        }
        let hl = html.len();
        assert(p + 6 <= hl);
        let st = p + 6;
        let e = match index_of_from(html, &quote, st) {
            Some(e) => e,
            None => {
                return None;
            },
        };
        proof {
            crate::strutil::lemma_index_of_props(html@, quote@, st as int);
        }
        let link = sub_vec(html, st, e);
        if starts_with(&link, &http) && contains_chars(&link, keyword) {
            return Some(link);
        }
        off = e + 1;
    }
}

/// The mediafire landing page's direct link: the `href` opened before the
/// `downloadButton` marker, else the first `https://download` link.
pub open spec fn spec_mediafire_html(h: Seq<char>) -> Option<Seq<char>> {
    match spec_attr_before(h, "downloadButton"@, "href=\""@) {
        Some(link) => Some(link),
        None => spec_first_href_prefix(h, "https://download"@, 0),
    }
}

pub fn resolve_mediafire_html(html: &Vec<char>) -> (r: Option<Vec<char>>)
    ensures
        match r {
            Some(t) => spec_mediafire_html(html@) == Some(t@),
            None => spec_mediafire_html(html@) is None,
        },
{
    proof {
        reveal_strlit("href=\"");
    }
    let href = str_chars("href=\"");
    proof {
        assert(href@ =~= "href=\""@);
    }
    match extract_attr_before(html, &str_chars("downloadButton"), &href) {
        Some(link) => Some(link),
        None => extract_first_href_prefix(html, &str_chars("https://download")),
    }
}

/// The Google Drive direct link embedded in a page: the first
/// `/uc?export=download` occurrence up to a quote of either kind,
/// absolutized when relative.
pub open spec fn spec_gdrive_direct_from_html(h: Seq<char>) -> Option<Seq<char>> {
    let p = spec_index_of(h, "/uc?export=download"@, 0);
    if p == -1 {
        None
    } else {
        let slice = h.subrange(p, h.len() as int);
        let e1 = spec_index_of(slice, seq!['"'], 0);
        let e = if e1 == -1 {
            spec_index_of(slice, seq!['\''], 0)
        } else {
            e1
        };
        if e == -1 {
            None
        } else {
            let link = slice.subrange(0, e);
            if match_at(link, "http"@, 0) {
                Some(link)
            } else {
                Some("https://drive.google.com"@ + link)
            }
        }
    }
}

pub fn resolve_google_drive_direct_from_html(html: &Vec<char>) -> (r: Option<Vec<char>>)
    ensures
        match r {
            Some(t) => spec_gdrive_direct_from_html(html@) == Some(t@),
            None => spec_gdrive_direct_from_html(html@) is None,
        },
{
    let marker = str_chars("/uc?export=download");
    let p = match index_of(html, &marker) {
        Some(p) => p,
        None => {
            return None;
        },
    };
    proof {
        crate::strutil::lemma_index_of_props(html@, marker@, 0);
    }
    let slice = sub_vec(html, p, html.len());
    let quote = str_chars("\"");
    let apos = str_chars("'");
    proof {
        reveal_strlit("\"");
        reveal_strlit("'");
        assert(quote@ =~= seq!['"']);
        assert(apos@ =~= seq!['\'']);
    }
    let e = match index_of(&slice, &quote) {
        Some(e) => e,
        None => {
            match index_of(&slice, &apos) {
                Some(e) => e,
                None => {
                    return None;
                },
            }
        },
    };
    proof {
        crate::strutil::lemma_index_of_props(slice@, quote@, 0);
        crate::strutil::lemma_index_of_props(slice@, apos@, 0);
    }
    let link = sub_vec(&slice, 0, e);
    let http = str_chars("http");
    if starts_with(&link, &http) {
        Some(link)
    } else {
        let mut out = str_chars("https://drive.google.com");
        push_range(&mut out, &link, 0, link.len());
        proof {
            assert(link@.subrange(0, link@.len() as int) =~= link@);
        }
        Some(out)
    }
}

/// The confirm-token rewrite of a Google Drive page: a direct link when
/// the page holds one, else a constructed confirm URL from the token
/// after the first `confirm=`.
pub open spec fn spec_gdrive_confirm(h: Seq<char>, id: Seq<char>) -> Option<Seq<char>> {
    match spec_gdrive_direct_from_html(h) {
        Some(link) => Some(link),
        None => {
            match spec_token_after(h, "confirm="@) {
                None => None,
                Some(token) => Some(
                    "https://drive.google.com/uc?export=download&confirm="@ + token + "&id="@ + id,
                ),
            }
        },
    }
}

pub fn resolve_google_drive_confirm(html: &Vec<char>, id: &Vec<char>) -> (r: Option<Vec<char>>)
    ensures
        match r {
            Some(t) => spec_gdrive_confirm(html@, id@) == Some(t@),
            None => spec_gdrive_confirm(html@, id@) is None,
        },
{
    match resolve_google_drive_direct_from_html(html) {
        Some(link) => Some(link),
        None => {
            let token = match extract_token_after(html, &str_chars("confirm=")) {
                Some(t) => t,
                None => {
                    return None;
                },
            };
            let mut out = str_chars("https://drive.google.com/uc?export=download&confirm=");
            push_range(&mut out, &token, 0, token.len());
            let amp = str_chars("&id=");
            push_range(&mut out, &amp, 0, amp.len());
            push_range(&mut out, id, 0, id.len());
            proof {
                assert(token@.subrange(0, token@.len() as int) =~= token@);
                assert(amp@.subrange(0, amp@.len() as int) =~= amp@);
                assert(id@.subrange(0, id@.len() as int) =~= id@);
                assert(out@ =~= "https://drive.google.com/uc?export=download&confirm="@ + token@
                    + "&id="@ + id@);
            }
            Some(out)
        },
    }
}

/// The generic fallback: the first `http` link holding `download`, else
/// the `og:video` meta content, else `og:video:url`.
pub open spec fn spec_generic_html(h: Seq<char>) -> Option<Seq<char>> {
    match spec_first_href_keyword(h, "download"@, 0) {
        Some(link) => Some(link),
        None => {
            match spec_meta_content(h, "og:video"@) {
                Some(link) => Some(link),
                None => spec_meta_content(h, "og:video:url"@),
            }
        },
    }
}

pub fn resolve_generic_html(html: &Vec<char>) -> (r: Option<Vec<char>>)
    ensures
        match r {
            Some(t) => spec_generic_html(html@) == Some(t@),
            None => spec_generic_html(html@) is None,
        },
{
    match extract_first_href_with_keyword(html, &str_chars("download")) {
        Some(link) => Some(link),
        None => {
            match extract_meta_content(html, &str_chars("og:video")) {
                Some(link) => Some(link),
                None => extract_meta_content(html, &str_chars("og:video:url")),
            }
        },
    }
}

/// The list with duplicates removed, keeping first occurrences in order.
pub open spec fn spec_dedup(urls: Seq<Seq<char>>, i: int, out: Seq<Seq<char>>) -> Seq<Seq<char>>
    decreases urls.len() - i,
{
    if i < 0 || i >= urls.len() {
        out
    } else {
        spec_dedup(urls, i + 1, spec_add_unique(out, urls[i]))
    }
}

pub fn dedup(urls: Vec<String>) -> (r: Vec<String>)
    ensures
        r.deep_view() == spec_dedup(urls.deep_view(), 0, Seq::<Seq<char>>::empty()),
{
    let mut out: Vec<String> = Vec::new();
    proof {
        assert(out.deep_view() =~= Seq::<Seq<char>>::empty());
    }
    let mut i: usize = 0;
    while i < urls.len()
        invariant
            0 <= i <= urls@.len(),
            spec_dedup(urls.deep_view(), 0, Seq::<Seq<char>>::empty()) == spec_dedup(
                urls.deep_view(),
                i as int,
                out.deep_view(),
            ),
        decreases urls@.len() - i,
    {
        proof {
            assert(urls.deep_view()[i as int] == urls@[i as int]@);
        }
        push_unique_url(&mut out, urls[i].clone());
        i = i + 1;
    }
    out
}

/// The candidates a fetched landing page yields: the provider-specific
/// scrape when one applies, the generic fallback when it found nothing,
/// deduplicated in order.
pub open spec fn spec_resolve_html(h: Seq<char>, u: Seq<char>) -> Seq<Seq<char>> {
    let provider = spec_detect_provider(u);
    let o1: Seq<Seq<char>> = if provider == Provider::Mediafire {
        match spec_mediafire_html(h) {
            Some(link) => seq![link],
            None => seq![],
        }
    } else {
        seq![]
    };
    let o2: Seq<Seq<char>> = if provider == Provider::GoogleDrive {
        let oa: Seq<Seq<char>> = match spec_gdrive_id(u) {
            Some(id) => match spec_gdrive_confirm(h, id) {
                Some(link) => o1 + seq![link],
                None => o1,
            },
            None => o1,
        };
        match spec_gdrive_direct_from_html(h) {
            Some(link) => oa + seq![link],
            None => oa,
        }
    } else {
        o1
    };
    let o3: Seq<Seq<char>> = if o2.len() == 0 {
        match spec_generic_html(h) {
            Some(link) => seq![link],
            None => seq![],
        }
    } else {
        o2
    };
    spec_dedup(o3, 0, Seq::<Seq<char>>::empty())
}

/// Scrape an already-fetched HTML landing page for direct download
/// candidates; the caller fetched the page and confirmed its content
/// type.
pub fn resolve_html_download(html: &str, url: &str) -> (r: Vec<String>)
    ensures
        r.deep_view() == spec_resolve_html(html@, url@),
{
    let h = str_chars(html);
    let provider = detect_provider(url);
    let mut out: Vec<String> = Vec::new();
    proof {
        assert(out.deep_view() =~= Seq::<Seq<char>>::empty());
    }
    let is_mediafire = match provider {
        Provider::Mediafire => true,
        _ => false,
    };
    let is_gdrive = match provider {
        Provider::GoogleDrive => true,
        _ => false,
    };
    if is_mediafire {
        match resolve_mediafire_html(&h) {
            Some(link) => {
                let ghost pre = out.deep_view();
                out.push(string_from_chars(&link));
                proof {
                    assert forall|k: int| 0 <= k < pre.len() implies #[trigger] out.deep_view()[k]
                        == pre[k] by {
                        assert(out.deep_view()[k] == out@[k]@);
                    }
                    assert(out.deep_view()[pre.len() as int] == out@[pre.len() as int]@);
                    assert(out.deep_view() =~= pre.push(link@));
                }
            },
            None => {},
        }
    }
    if is_gdrive {
        match resolve_google_drive_id(url) {
            Some(id) => {
                match resolve_google_drive_confirm(&h, &str_chars(id.as_str())) {
                    Some(link) => {
                        let ghost pre = out.deep_view();
                        out.push(string_from_chars(&link));
                        proof {
                            assert forall|k: int|
                                0 <= k < pre.len() implies #[trigger] out.deep_view()[k]
                                == pre[k] by {
                                assert(out.deep_view()[k] == out@[k]@);
                            }
                            assert(out.deep_view()[pre.len() as int] == out@[pre.len() as int]@);
                            assert(out.deep_view() =~= pre.push(link@));
                        }
                    },
                    None => {},
                }
            },
            None => {},
        }
        match resolve_google_drive_direct_from_html(&h) {
            Some(link) => {
                let ghost pre = out.deep_view();
                out.push(string_from_chars(&link));
                proof {
                    assert forall|k: int| 0 <= k < pre.len() implies #[trigger] out.deep_view()[k]
                        == pre[k] by {
                        assert(out.deep_view()[k] == out@[k]@);
                    }
                    assert(out.deep_view()[pre.len() as int] == out@[pre.len() as int]@);
                    assert(out.deep_view() =~= pre.push(link@));
                }
            },
            None => {},
        }
    }
    if out.len() == 0 {
        match resolve_generic_html(&h) {
            Some(link) => {
                let ghost pre = out.deep_view();
                out.push(string_from_chars(&link));
                proof {
                    assert(pre.len() == 0);
                    assert(out.deep_view()[0] == out@[0]@);
                    assert(out.deep_view() =~= pre.push(link@));
                }
            },
            None => {},
        }
    }
    proof {
        let o3 = spec_resolve_html_pre_dedup(html@, url@);
        assert(out.deep_view() =~= o3);
    }
    dedup(out)
}

/// The scrape results before deduplication.
pub open spec fn spec_resolve_html_pre_dedup(h: Seq<char>, u: Seq<char>) -> Seq<Seq<char>> {
    let provider = spec_detect_provider(u);
    let o1: Seq<Seq<char>> = if provider == Provider::Mediafire {
        match spec_mediafire_html(h) {
            Some(link) => seq![link],
            None => seq![],
        }
    } else {
        seq![]
    };
    let o2: Seq<Seq<char>> = if provider == Provider::GoogleDrive {
        let oa: Seq<Seq<char>> = match spec_gdrive_id(u) {
            Some(id) => match spec_gdrive_confirm(h, id) {
                Some(link) => o1 + seq![link],
                None => o1,
            },
            None => o1,
        };
        match spec_gdrive_direct_from_html(h) {
            Some(link) => oa + seq![link],
            None => oa,
        }
    } else {
        o1
    };
    if o2.len() == 0 {
        match spec_generic_html(h) {
            Some(link) => seq![link],
            None => seq![],
        }
    } else {
        o2
    }
}

} // verus!
