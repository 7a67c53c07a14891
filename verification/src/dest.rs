//! Destination-path resolution: filenames from `Content-Disposition` or
//! the URL path, percent decoding, sanitizing, and the directory
//! fallback chain.

use vstd::prelude::*;
use vstd::string::StrSliceExecFns;
use crate::resolver::url_path_of;
use crate::strutil::{
    match_at, spec_index_of, spec_rindex_of, spec_lower, spec_hex_value, index_of, index_of_from,
    rindex_of_upto, is_match_at, starts_with, to_ascii_lower, str_chars,
    string_from_chars, sub_vec, push_range, hex_value,
};

verus! {

/// A decoded byte is kept when it is printable ASCII and no path
/// separator; anything else becomes an underscore.
pub open spec fn spec_keep_byte(b: int) -> char {
    if 32 <= b < 128 && b != 47 && b != 92 {
        b as char
    } else {
        '_'
    }
}

/// A literal character is kept when it is ASCII and no path separator.
pub open spec fn spec_keep_char(c: char) -> char {
    if c <= '\x7f' && c != '/' && c != '\\' {
        c
    } else {
        '_'
    }
}

/// Percent-decoding from position `i`: `%hh` pairs become their byte when
/// both digits are hexadecimal and a third character follows; everything
/// non-ASCII or separator-like becomes an underscore.
pub open spec fn spec_pdecode(s: Seq<char>, i: int) -> Seq<char>
    decreases s.len() - i,
{
    if i < 0 || i >= s.len() {
        seq![]
    } else if s[i] == '%' && i + 2 < s.len() && spec_hex_value(s[i + 1]) < 16 && spec_hex_value(
        s[i + 2],
    ) < 16 {
        seq![
            spec_keep_byte(spec_hex_value(s[i + 1]) * 16 + spec_hex_value(s[i + 2])),
        ] + spec_pdecode(s, i + 3)
    } else {
        seq![spec_keep_char(s[i])] + spec_pdecode(s, i + 1)
    }
}

/// Percent-decode a name, mapping what cannot stand in a filename to
/// underscores.
pub fn percent_decode_ascii(value: &str) -> (r: String)
    ensures
        r@ == spec_pdecode(value@, 0),
{
    let v = str_chars(value);
    let mut out: Vec<char> = Vec::new();
    let mut i: usize = 0;
    while i < v.len()
        invariant
            0 <= i,
            v@ == value@,
            out@ + spec_pdecode(v@, i as int) == spec_pdecode(v@, 0),
        decreases v@.len() - i,
    {
        let ghost pre = out@;
        let c = v[i];
        let mut stepped = false;
        if c == '%' && v.len() - i > 2 {
            let hi = hex_value(v[i + 1]);
            let lo = hex_value(v[i + 2]);
            match (hi, lo) {
                (Some(h), Some(l)) => {
                    let b: u8 = h * 16 + l;
                    if b >= 32 && b < 128 && b != 47 && b != 92 {
                        out.push(b as char);
                    } else {
                        out.push('_');
                    }
                    proof {
                        assert(out@ =~= pre.push(spec_keep_byte(b as int)));
                        assert(pre.push(spec_keep_byte(b as int)) + spec_pdecode(v@, i + 3)
                            =~= pre + spec_pdecode(v@, i as int));
                    }
                    i = i + 3;
                    stepped = true;
                },
                _ => {},
            }
        }
        if !stepped {
            if c <= '\x7f' && c != '/' && c != '\\' {
                out.push(c);
            } else {
                out.push('_');
            }
            proof {
                assert(out@ =~= pre.push(spec_keep_char(v@[i as int])));
                assert(pre.push(spec_keep_char(v@[i as int])) + spec_pdecode(v@, i + 1) =~= pre
                    + spec_pdecode(v@, i as int));
            }
            i = i + 1;
        }
    }
    proof {
        assert(spec_pdecode(v@, v@.len() as int) =~= Seq::<char>::empty());
        assert(out@ + spec_pdecode(v@, v@.len() as int) =~= out@);
    }
    string_from_chars(&out)
}

/// `+` reads as a space before the allow-list is applied.
pub open spec fn spec_norm_char(c: char) -> char {
    if c == '+' {
        ' '
    } else {
        c
    }
}

/// The characters a filename may keep.
pub open spec fn spec_allowed_char(c: char) -> bool {
    ||| ('0' <= c && c <= '9')
    ||| ('a' <= c && c <= 'z')
    ||| ('A' <= c && c <= 'Z')
    ||| c == '.' || c == '_' || c == '-' || c == ' ' || c == '(' || c == ')' || c == '[' || c
        == ']'
}

/// What one character maps to.
pub open spec fn spec_map_char(c: char) -> char {
    if spec_allowed_char(spec_norm_char(c)) {
        spec_norm_char(c)
    } else {
        '_'
    }
}

/// The scan of the sanitizer: runs of separators (underscore or space)
/// collapse to their first character.
pub open spec fn spec_sanitize_scan(s: Seq<char>, i: int, last_sep: bool) -> Seq<char>
    decreases s.len() - i,
{
    if i < 0 || i >= s.len() {
        seq![]
    } else {
        let m = spec_map_char(s[i]);
        if m == '_' || m == ' ' {
            if last_sep {
                spec_sanitize_scan(s, i + 1, true)
            } else {
                seq![m] + spec_sanitize_scan(s, i + 1, true)
            }
        } else {
            seq![m] + spec_sanitize_scan(s, i + 1, false)
        }
    }
}

/// Leading and trailing space, dot, and underscore are trimmed.
pub open spec fn spec_trim_sep_char(c: char) -> bool {
    c == ' ' || c == '.' || c == '_'
}

pub open spec fn spec_trim_end_seps(s: Seq<char>) -> Seq<char>
    decreases s.len(),
{
    if s.len() > 0 && spec_trim_sep_char(s.last()) {
        spec_trim_end_seps(s.drop_last())
    } else {
        s
    }
}

pub open spec fn spec_trim_front_seps(s: Seq<char>) -> Seq<char>
    decreases s.len(),
{
    if s.len() > 0 && spec_trim_sep_char(s.first()) {
        spec_trim_front_seps(s.drop_first())
    } else {
        s
    }
}

/// The sanitized filename: mapped and collapsed, trimmed of separators at
/// both ends, with the fallback name where nothing remains.
pub open spec fn spec_sanitize(s: Seq<char>) -> Seq<char> {
    let t = spec_trim_front_seps(spec_trim_end_seps(spec_sanitize_scan(s, 0, false)));
    if t.len() == 0 {
        "download.bin"@
    } else {
        t
    }
}

/// Sanitize a filename to ASCII alphanumerics and a small set of
/// punctuation, collapsing separator runs.
pub fn sanitize_filename(name: &str) -> (r: String)
    ensures
        r@ == spec_sanitize(name@),
{
    let v = str_chars(name);
    let mut out: Vec<char> = Vec::new();
    let mut last_was_sep = false;
    let mut i: usize = 0;
    while i < v.len()
        invariant
            0 <= i,
            v@ == name@,
            out@ + spec_sanitize_scan(v@, i as int, last_was_sep) == spec_sanitize_scan(
                v@,
                0,
                false,
            ),
        decreases v@.len() - i,
    {
        let ghost pre = out@;
        let c = v[i];
        let normalized = if c == '+' {
            ' '
        } else {
            c
        };
        let allowed = ('0' <= normalized && normalized <= '9') || ('a' <= normalized && normalized
            <= 'z') || ('A' <= normalized && normalized <= 'Z') || normalized == '.' || normalized
            == '_' || normalized == '-' || normalized == ' ' || normalized == '(' || normalized
            == ')' || normalized == '[' || normalized == ']';
        let mapped = if allowed {
            normalized
        } else {
            '_'
        };
        proof {
            assert(mapped == spec_map_char(v@[i as int]));
        }
        if mapped == '_' || mapped == ' ' {
            if !last_was_sep {
                out.push(mapped);
                proof {
                    assert(out@ =~= pre.push(mapped));
                    assert(pre.push(mapped) + spec_sanitize_scan(v@, i + 1, true) =~= pre
                        + spec_sanitize_scan(v@, i as int, false));
                }
            }
            last_was_sep = true;
        } else {
            out.push(mapped);
            proof {
                assert(out@ =~= pre.push(mapped));
                assert(pre.push(mapped) + spec_sanitize_scan(v@, i + 1, false) =~= pre
                    + spec_sanitize_scan(v@, i as int, last_was_sep));
            }
            last_was_sep = false;
        }
        i = i + 1;
    }
    proof {
        assert(spec_sanitize_scan(v@, v@.len() as int, last_was_sep) =~= Seq::<char>::empty());
        assert(out@ + spec_sanitize_scan(v@, v@.len() as int, last_was_sep) =~= out@);
    }
    let trimmed = trim_seps(&out);
    if trimmed.len() == 0 {
        let fallback = str_chars("download.bin");
        string_from_chars(&fallback)
    } else {
        string_from_chars(&trimmed)
    }
}

fn trim_seps(s: &Vec<char>) -> (r: Vec<char>)
    ensures
        r@ == spec_trim_front_seps(spec_trim_end_seps(s@)),
{
    let mut end: usize = s.len();
    proof {
        assert(s@.subrange(0, s@.len() as int) =~= s@);
    }
    while end > 0 && (s[end - 1] == ' ' || s[end - 1] == '.' || s[end - 1] == '_')
        invariant
            0 <= end <= s@.len(),
            spec_trim_end_seps(s@) == spec_trim_end_seps(s@.subrange(0, end as int)),
        decreases end,
    {
        proof {
            assert(s@.subrange(0, end as int).drop_last() =~= s@.subrange(0, end as int - 1));
        }
        end = end - 1;
    }
    proof {
        if end > 0 {
            assert(!spec_trim_sep_char(s@.subrange(0, end as int).last()));
        }
    }
    let ghost te = spec_trim_end_seps(s@);
    let mut start: usize = 0;
    while start < end && (s[start] == ' ' || s[start] == '.' || s[start] == '_')
        invariant
            0 <= start <= end <= s@.len(),
            te == s@.subrange(0, end as int),
            spec_trim_front_seps(te) == spec_trim_front_seps(
                s@.subrange(start as int, end as int),
            ),
        decreases end - start,
    {
        proof {
            assert(s@.subrange(start as int, end as int).drop_first() =~= s@.subrange(
                start as int + 1,
                end as int,
            ));
        }
        start = start + 1;
    }
    proof {
        if start < end {
            assert(s@.subrange(start as int, end as int).first() == s@[start as int]);
            assert(!spec_trim_sep_char(s@.subrange(start as int, end as int).first()));
        } else {
            assert(s@.subrange(start as int, end as int) =~= Seq::<char>::empty());
        }
    }
    sub_vec(s, start, end)
}

/// The filename a URL path suggests: the text after the last slash,
/// percent-decoded with `+` read as a space; `None` when the path is
/// empty or ends with a slash.
pub open spec fn spec_filename_from_url(u: Seq<char>) -> Option<Seq<char>> {
    match url_path_of(u) {
        None => None,
        Some(p) => {
            let last = spec_rindex_of(p, seq!['/'], p.len() as int);
            let name = if last == -1 {
                p
            } else {
                p.subrange(last + 1, p.len() as int)
            };
            if name.len() == 0 {
                None
            } else {
                Some(spec_pdecode(name, 0).map_values(|c: char| if c == '+' {
                    ' '
                } else {
                    c
                }))
            }
        },
    }
}

pub fn filename_from_url(url: &str) -> (r: Option<String>)
    ensures
        match r {
            Some(s) => spec_filename_from_url(url@) == Some(s@),
            None => spec_filename_from_url(url@) is None,
        },
{
    let path = match crate::resolver::url_path(url) {
        Some(p) => p,
        None => {
            return None;
        },
    };
    let p = str_chars(path.as_str());
    let slash = str_chars("/");
    proof {
        reveal_strlit("/");
        assert(slash@ =~= seq!['/']);
    }
    let name = match rindex_of_upto(&p, &slash, p.len()) {
        None => sub_vec(&p, 0, p.len()),
        Some(last) => {
            proof {
                lemma_rindex_in_range(p@, slash@, p@.len() as int);
            }
            sub_vec(&p, last + 1, p.len())
        },
    };
    proof {
        assert(p@.subrange(0, p@.len() as int) =~= p@);
    }
    if name.len() == 0 {
        return None;
    }
    let decoded = percent_decode_ascii(string_from_chars(&name).as_str());
    let d = str_chars(decoded.as_str());
    let mut out: Vec<char> = Vec::new();
    let mut i: usize = 0;
    while i < d.len()
        invariant
            0 <= i <= d@.len(),
            out@.len() == i,
            forall|j: int|
                0 <= j < i ==> #[trigger] out@[j] == (if d@[j] == '+' {
                    ' '
                } else {
                    d@[j]
                }),
        decreases d@.len() - i,
    {
        if d[i] == '+' {
            out.push(' ');
        } else {
            out.push(d[i]);
        }
        i = i + 1;
    }
    proof {
        assert(out@ =~= d@.map_values(|c: char| if c == '+' {
            ' '
        } else {
            c
        }));
    }
    Some(string_from_chars(&out))
}

/// A non-negative reverse find lies within range.
proof fn lemma_rindex_in_range(hay: Seq<char>, needle: Seq<char>, upto: int)
    ensures
        spec_rindex_of(hay, needle, upto) == -1 || (0 <= spec_rindex_of(hay, needle, upto) <= upto
            && match_at(hay, needle, spec_rindex_of(hay, needle, upto))),
    decreases upto + 1,
{
    if upto < 0 {
    } else if match_at(hay, needle, upto) {
    } else {
        lemma_rindex_in_range(hay, needle, upto - 1);
    }
}

/// Space and tab are trimmed around header parts.
pub open spec fn spec_space_char(c: char) -> bool {
    c == ' ' || c == '\t'
}

pub open spec fn spec_trim_end_spaces(s: Seq<char>) -> Seq<char>
    decreases s.len(),
{
    if s.len() > 0 && spec_space_char(s.last()) {
        spec_trim_end_spaces(s.drop_last())
    } else {
        s
    }
}

pub open spec fn spec_trim_front_spaces(s: Seq<char>) -> Seq<char>
    decreases s.len(),
{
    if s.len() > 0 && spec_space_char(s.first()) {
        spec_trim_front_spaces(s.drop_first())
    } else {
        s
    }
}

pub open spec fn spec_trim_spaces(s: Seq<char>) -> Seq<char> {
    spec_trim_front_spaces(spec_trim_end_spaces(s))
}

fn trim_spaces_vec(s: &Vec<char>) -> (r: Vec<char>)
    ensures
        r@ == spec_trim_spaces(s@),
{
    let mut end: usize = s.len();
    proof {
        assert(s@.subrange(0, s@.len() as int) =~= s@);
    }
    while end > 0 && (s[end - 1] == ' ' || s[end - 1] == '\t')
        invariant
            0 <= end <= s@.len(),
            spec_trim_end_spaces(s@) == spec_trim_end_spaces(s@.subrange(0, end as int)),
        decreases end,
    {
        proof {
            assert(s@.subrange(0, end as int).drop_last() =~= s@.subrange(0, end as int - 1));
        }
        end = end - 1;
    }
    proof {
        if end > 0 {
            assert(!spec_space_char(s@.subrange(0, end as int).last()));
        }
    }
    let ghost te = spec_trim_end_spaces(s@);
    let mut start: usize = 0;
    while start < end && (s[start] == ' ' || s[start] == '\t')
        invariant
            0 <= start <= end <= s@.len(),
            te == s@.subrange(0, end as int),
            spec_trim_front_spaces(te) == spec_trim_front_spaces(
                s@.subrange(start as int, end as int),
            ),
        decreases end - start,
    {
        proof {
            assert(s@.subrange(start as int, end as int).drop_first() =~= s@.subrange(
                start as int + 1,
                end as int,
            ));
        }
        start = start + 1;
    }
    proof {
        if start < end {
            assert(!spec_space_char(s@.subrange(start as int, end as int).first()));
        } else {
            assert(s@.subrange(start as int, end as int) =~= Seq::<char>::empty());
        }
    }
    sub_vec(s, start, end)
}

/// Surrounding double quotes are stripped.
pub open spec fn spec_trim_end_quotes(s: Seq<char>) -> Seq<char>
    decreases s.len(),
{
    if s.len() > 0 && s.last() == '"' {
        spec_trim_end_quotes(s.drop_last())
    } else {
        s
    }
}

pub open spec fn spec_trim_front_quotes(s: Seq<char>) -> Seq<char>
    decreases s.len(),
{
    if s.len() > 0 && s.first() == '"' {
        spec_trim_front_quotes(s.drop_first())
    } else {
        s
    }
}

pub open spec fn spec_trim_quotes(s: Seq<char>) -> Seq<char> {
    spec_trim_front_quotes(spec_trim_end_quotes(s))
}

fn trim_quotes_vec(s: &Vec<char>) -> (r: Vec<char>)
    ensures
        r@ == spec_trim_quotes(s@),
{
    let mut end: usize = s.len();
    proof {
        assert(s@.subrange(0, s@.len() as int) =~= s@);
    }
    while end > 0 && s[end - 1] == '"'
        invariant
            0 <= end <= s@.len(),
            spec_trim_end_quotes(s@) == spec_trim_end_quotes(s@.subrange(0, end as int)),
        decreases end,
    {
        proof {
            assert(s@.subrange(0, end as int).drop_last() =~= s@.subrange(0, end as int - 1));
        }
        end = end - 1;
    }
    proof {
        if end > 0 {
            assert(s@.subrange(0, end as int).last() != '"');
        }
    }
    let ghost te = spec_trim_end_quotes(s@);
    let mut start: usize = 0;
    while start < end && s[start] == '"'
        invariant
            0 <= start <= end <= s@.len(),
            te == s@.subrange(0, end as int),
            spec_trim_front_quotes(te) == spec_trim_front_quotes(
                s@.subrange(start as int, end as int),
            ),
        decreases end - start,
    {
        proof {
            assert(s@.subrange(start as int, end as int).drop_first() =~= s@.subrange(
                start as int + 1,
                end as int,
            ));
        }
        start = start + 1;
    }
    proof {
        if start < end {
            assert(s@.subrange(start as int, end as int).first() != '"');
        } else {
            assert(s@.subrange(start as int, end as int) =~= Seq::<char>::empty());
        }
    }
    sub_vec(s, start, end)
}

/// The text after the first `=`, if one occurs.
pub open spec fn spec_after_eq(s: Seq<char>) -> Option<Seq<char>> {
    let j = spec_index_of(s, seq!['='], 0);
    if j == -1 {
        None
    } else {
        Some(s.subrange(j + 1, s.len() as int))
    }
}

fn after_eq(s: &Vec<char>) -> (r: Option<Vec<char>>)
    ensures
        match r {
            Some(t) => spec_after_eq(s@) == Some(t@),
            None => spec_after_eq(s@) is None,
        },
{
    let eq = str_chars("=");
    proof {
        reveal_strlit("=");
        assert(eq@ =~= seq!['=']);
    }
    match index_of(s, &eq) {
        None => None,
        Some(j) => {
            proof {
                crate::strutil::lemma_index_of_props(s@, eq@, 0);
            }
            let n = s.len();
            assert(j + 1 <= n);
            Some(sub_vec(s, j + 1, n))
        },
    }
}

/// The decoded `filename*=` value: the text after the first `''` when one
/// occurs, else the whole value, percent-decoded.
pub open spec fn spec_star_value(raw: Seq<char>) -> Seq<char> {
    let i2 = spec_index_of(raw, "''"@, 0);
    if i2 == -1 {
        spec_pdecode(raw, 0)
    } else {
        spec_pdecode(raw.subrange(i2 + 2, raw.len() as int), 0)
    }
}

/// One `;`-separated part's effect on the two filename accumulators.
pub open spec fn spec_process_part(
    part: Seq<char>,
    star: Option<Seq<char>>,
    plain: Option<Seq<char>>,
) -> (Option<Seq<char>>, Option<Seq<char>>) {
    let t = spec_trim_spaces(part);
    let low = spec_lower(t);
    if match_at(low, "filename*="@, 0) {
        match spec_after_eq(t) {
            None => (star, plain),
            Some(r0) => {
                let raw = spec_trim_quotes(spec_trim_spaces(r0));
                let dec = spec_star_value(raw);
                if dec.len() > 0 {
                    (Some(dec), plain)
                } else {
                    (star, plain)
                }
            },
        }
    } else if match_at(low, "filename="@, 0) {
        match spec_after_eq(t) {
            None => (star, plain),
            Some(r0) => {
                let raw = spec_trim_quotes(spec_trim_spaces(r0));
                if raw.len() > 0 {
                    (star, Some(raw))
                } else {
                    (star, plain)
                }
            },
        }
    } else {
        (star, plain)
    }
}

/// The scan over the `;`-separated parts of a `Content-Disposition`
/// value; a decoded `filename*=` wins over a plain `filename=`.
pub open spec fn spec_cd_scan(
    s: Seq<char>,
    i: int,
    star: Option<Seq<char>>,
    plain: Option<Seq<char>>,
) -> Option<Seq<char>>
    decreases s.len() - i,
        via spec_cd_scan_dec
{
    if i < 0 {
        None
    } else {
        let j = spec_index_of(s, seq![';'], i);
        let part = if j == -1 {
            s.subrange(i, s.len() as int)
        } else {
            s.subrange(i, j)
        };
        let sp = spec_process_part(part, star, plain);
        if j == -1 {
            match sp.0 {
                Some(f) => Some(f),
                None => sp.1,
            }
        } else {
            spec_cd_scan(s, j + 1, sp.0, sp.1)
        }
    }
}

#[via_fn]
proof fn spec_cd_scan_dec(s: Seq<char>, i: int, star: Option<Seq<char>>, plain: Option<Seq<char>>) {
    if i >= 0 {
        crate::strutil::lemma_index_of_props(s, seq![';'], i);
    }
}

/// The filename a `Content-Disposition` header suggests: the decoded
/// `filename*=` parameter when present and non-empty, else the plain
/// `filename=` parameter.
pub open spec fn spec_filename_from_cd(v: Option<Seq<char>>) -> Option<Seq<char>> {
    match v {
        None => None,
        Some(s) => spec_cd_scan(s, 0, None, None),
    }
}

pub fn filename_from_content_disposition(value: Option<&str>) -> (r: Option<String>)
    ensures
        match r {
            Some(f) => spec_filename_from_cd(match value {
                Some(v) => Some(v@),
                None => None,
            }) == Some(f@),
            None => spec_filename_from_cd(match value {
                Some(v) => Some(v@),
                None => None,
            }) is None,
        },
{
    let val = match value {
        Some(v) => v,
        None => {
            return None;
        },
    };
    let s = str_chars(val);
    let semi = str_chars(";");
    proof {
        reveal_strlit(";");
        assert(semi@ =~= seq![';']);
    }
    let mut star: Option<Vec<char>> = None;
    let mut plain: Option<Vec<char>> = None;
    let mut i: usize = 0;
    loop
        invariant
            0 <= i <= s@.len(),
            value == Some(val),
            s@ == val@,
            semi@ == seq![';'],
            spec_cd_scan(s@, 0, None, None) == spec_cd_scan(
                s@,
                i as int,
                match star {
                    Some(ref v) => Some(v@),
                    None => None,
                },
                match plain {
                    Some(ref v) => Some(v@),
                    None => None,
                },
            ),
        decreases s@.len() + 1 - i,
    {
        let j = index_of_from(&s, &semi, i);
        let part = match j {
            None => sub_vec(&s, i, s.len()),
            Some(j) => {
                proof {
                    crate::strutil::lemma_index_of_props(s@, semi@, i as int);
                }
                sub_vec(&s, i, j)
            },
        };
        let ghost gs_old = match star {
            Some(ref v) => Some(v@),
            None => None,
        };
        let ghost gp_old = match plain {
            Some(ref v) => Some(v@),
            None => None,
        };
        let (star2, plain2) = process_part(&part, star, plain);
        star = star2;
        plain = plain2;
        proof {
            let sp = spec_process_part(part@, gs_old, gp_old);
            match j {
                None => {
                    assert(spec_index_of(s@, seq![';'], i as int) == -1);
                    assert(part@ == s@.subrange(i as int, s@.len() as int));
                    assert(spec_cd_scan(s@, i as int, gs_old, gp_old) == (match sp.0 {
                        Some(f) => Some(f),
                        None => sp.1,
                    }));
                },
                Some(jj) => {
                    assert(spec_index_of(s@, seq![';'], i as int) == jj as int);
                    assert(part@ == s@.subrange(i as int, jj as int));
                    assert(spec_cd_scan(s@, i as int, gs_old, gp_old) == spec_cd_scan(
                        s@,
                        jj + 1,
                        sp.0,
                        sp.1,
                    ));
                },
            }
        }
        match j {
            None => {
                match star {
                    Some(f) => {
                        return Some(string_from_chars(&f));
                    },
                    None => {
                        match plain {
                            Some(f) => {
                                return Some(string_from_chars(&f));
                            },
                            None => {
                                return None;
                            },
                        }
                    },
                }
            },
            Some(j) => {
                let n = s.len();
                assert(j + 1 <= n);
                i = j + 1;
            },
        }
    }
}

fn process_part(part: &Vec<char>, star: Option<Vec<char>>, plain: Option<Vec<char>>) -> (r: (
    Option<Vec<char>>,
    Option<Vec<char>>,
))
    ensures
        ({
            let gs = match star {
                Some(ref v) => Some(v@),
                None => None,
            };
            let gp = match plain {
                Some(ref v) => Some(v@),
                None => None,
            };
            let expected = spec_process_part(part@, gs, gp);
            ({
                let rs = match r.0 {
                    Some(ref v) => Some(v@),
                    None => None,
                };
                let rp = match r.1 {
                    Some(ref v) => Some(v@),
                    None => None,
                };
                rs == expected.0 && rp == expected.1
            })
        }),
{
    let t = trim_spaces_vec(part);
    let low = to_ascii_lower(&t);
    let starmark = str_chars("filename*=");
    let plainmark = str_chars("filename=");
    if starts_with(&low, &starmark) {
        match after_eq(&t) {
            None => (star, plain),
            Some(r0) => {
                let raw = trim_quotes_vec(&trim_spaces_vec(&r0));
                let tick = str_chars("''");
                proof {
                    reveal_strlit("''");
                    assert(tick@ =~= "''"@);
                }
                let dec = match index_of(&raw, &tick) {
                    None => percent_decode_ascii(string_from_chars(&raw).as_str()),
                    Some(i2) => {
                        proof {
                            crate::strutil::lemma_index_of_props(raw@, tick@, 0);
                            assert(tick@.len() == 2) by {
                                reveal_strlit("''");
                            }
                        }
                        let tail = sub_vec(&raw, i2 + 2, raw.len());
                        percent_decode_ascii(string_from_chars(&tail).as_str())
                    },
                };
                if dec.as_str().unicode_len() > 0 {
                    (Some(str_chars(dec.as_str())), plain)
                } else {
                    (star, plain)
                }
            },
        }
    } else if starts_with(&low, &plainmark) {
        match after_eq(&t) {
            None => (star, plain),
            Some(r0) => {
                let raw = trim_quotes_vec(&trim_spaces_vec(&r0));
                if raw.len() > 0 {
                    (star, Some(raw))
                } else {
                    (star, plain)
                }
            },
        }
    } else {
        (star, plain)
    }
}

/// Join a base directory and a file name with a single separator.
pub open spec fn spec_join_path(base: Seq<char>, name: Seq<char>) -> Seq<char> {
    if base.len() == 0 {
        name
    } else if base.last() == '/' {
        base + name
    } else {
        base + seq!['/'] + name
    }
}

/// The resolved destination: when the given path is empty, ends with a
/// separator, or names a directory, a sanitized filename is appended,
/// taken from `Content-Disposition`, else from the URL path, else the
/// fallback name; otherwise the trimmed path stands as given. An empty
/// path resolves against the default directory.
pub open spec fn spec_resolve_dest(
    dest: Seq<char>,
    url: Seq<char>,
    cd: Option<Seq<char>>,
    dest_is_dir: bool,
    default_dir: Seq<char>,
) -> Seq<char> {
    let t = spec_trim_spaces(dest);
    let empty = t.len() == 0;
    let treat_as_dir = empty || (t.len() > 0 && (t.last() == '/' || t.last() == '\\'))
        || dest_is_dir;
    let base = if empty {
        default_dir
    } else {
        t
    };
    if treat_as_dir {
        let fname = match spec_filename_from_cd(cd) {
            Some(f) => f,
            None => match spec_filename_from_url(url) {
                Some(f) => f,
                None => "download.bin"@,
            },
        };
        spec_join_path(base, spec_sanitize(fname))
    } else {
        t
    }
}

/// Resolve where the downloaded bytes will land. The caller reports
/// whether the trimmed path names an existing directory (`dest_is_dir`)
/// and supplies the default download directory used when the path is
/// empty.
pub fn resolve_dest_path(
    dest_path: &str,
    url: &str,
    content_disposition: Option<&str>,
    dest_is_dir: bool,
    default_dir: &str,
) -> (r: String)
    ensures
        r@ == spec_resolve_dest(dest_path@, url@, match content_disposition {
            Some(v) => Some(v@),
            None => None,
        }, dest_is_dir, default_dir@),
{
    let t = trim_spaces_vec(&str_chars(dest_path));
    let empty = t.len() == 0;
    let ends_sep = if t.len() > 0 {
        let last = t[t.len() - 1];
        last == '/' || last == '\\'
    } else {
        false
    };
    let treat_as_dir = empty || ends_sep || dest_is_dir;
    let base = if empty {
        str_chars(default_dir)
    } else {
        sub_vec(&t, 0, t.len())
    };
    proof {
        assert(t@.subrange(0, t@.len() as int) =~= t@);
    }
    if treat_as_dir {
        let fname = match filename_from_content_disposition(content_disposition) {
            Some(f) => f,
            None => {
                match filename_from_url(url) {
                    Some(f) => f,
                    None => {
                        let fb = str_chars("download.bin");
                        string_from_chars(&fb)
                    },
                }
            },
        };
        let cleaned = sanitize_filename(fname.as_str());
        let mut out = sub_vec(&base, 0, base.len());
        proof {
            assert(base@.subrange(0, base@.len() as int) =~= base@);
        }
        if base.len() > 0 && base[base.len() - 1] != '/' {
            out.push('/');
        }
        let cl = str_chars(cleaned.as_str());
        push_range(&mut out, &cl, 0, cl.len());
        proof {
            assert(cl@.subrange(0, cl@.len() as int) =~= cl@);
            assert(out@ =~= spec_join_path(base@, cl@));
        }
        string_from_chars(&out)
    } else {
        string_from_chars(&t)
    }
}

/// The default download directory chain: the environment override, then
/// the shared and card locations when they exist, then the home
/// `Downloads` directory in either case, then the temporary directory.
/// The caller reports what the environment and filesystem hold.
pub fn default_dest_dir(
    env_dir: Option<&str>,
    shared_exists: bool,
    sdcard_exists: bool,
    home: Option<&str>,
    downloads_exists: bool,
    downloads_lower_exists: bool,
) -> (r: String)
    ensures
        r@ == ({
            match env_dir {
                Some(d) => d@,
                None => {
                    if shared_exists {
                        "/storage/emulated/0/Download"@
                    } else if sdcard_exists {
                        "/sdcard/Download"@
                    } else {
                        let h = match home {
                            Some(h) => h@,
                            None => "/tmp"@,
                        };
                        if downloads_exists {
                            h + "/Downloads"@
                        } else if downloads_lower_exists {
                            h + "/downloads"@
                        } else {
                            "/tmp"@
                        }
                    }
                },
            }
        }),
{
    match env_dir {
        Some(d) => {
            let dc = str_chars(d);
            return string_from_chars(&dc);
        },
        None => {},
    }
    if shared_exists {
        let s = str_chars("/storage/emulated/0/Download");
        return string_from_chars(&s);
    }
    if sdcard_exists {
        let s = str_chars("/sdcard/Download");
        return string_from_chars(&s);
    }
    let h = match home {
        Some(h) => str_chars(h),
        None => str_chars("/tmp"),
    };
    if downloads_exists {
        let mut out = sub_vec(&h, 0, h.len());
        let tail = str_chars("/Downloads");
        push_range(&mut out, &tail, 0, tail.len());
        proof {
            assert(h@.subrange(0, h@.len() as int) =~= h@);
            assert(tail@.subrange(0, tail@.len() as int) =~= tail@);
        }
        string_from_chars(&out)
    } else if downloads_lower_exists {
        let mut out = sub_vec(&h, 0, h.len());
        let tail = str_chars("/downloads");
        push_range(&mut out, &tail, 0, tail.len());
        proof {
            assert(h@.subrange(0, h@.len() as int) =~= h@);
            assert(tail@.subrange(0, tail@.len() as int) =~= tail@);
        }
        string_from_chars(&out)
    } else {
        let s = str_chars("/tmp");
        string_from_chars(&s)
    }
}

} // verus!
