//! The request and response model of the HTTP layer, and the header
//! values the engine computes: the `Cookie` line and the `Range` line.

use vstd::prelude::*;
use crate::strutil::{
    push_range, str_chars, string_from_chars, u64_to_chars, spec_dec_digits, spec_lower,
    to_ascii_lower, chars_eq, clone_pair_vec, clone_opt_string,
};

verus! {

/// Everything one request needs: target, headers, cookies, an optional
/// inclusive byte range, proxy, credentials, and the user agent.
#[derive(Debug)]
pub struct DownloadRequest {
    pub url: String,
    pub headers: Vec<(String, String)>,
    pub cookies: Vec<(String, String)>,
    pub range: Option<(u64, u64)>,
    pub proxy: Option<String>,
    pub basic_auth: Option<(String, String)>,
    pub user_agent: String,
}

impl DownloadRequest {
    pub fn new(url: String, user_agent: String) -> (r: DownloadRequest)
        ensures
            r.url@ == url@,
            r.user_agent@ == user_agent@,
            r.headers@.len() == 0,
            r.cookies@.len() == 0,
            r.range is None,
            r.proxy is None,
            r.basic_auth is None,
    {
        DownloadRequest {
            url,
            headers: Vec::new(),
            cookies: Vec::new(),
            range: None,
            proxy: None,
            basic_auth: None,
            user_agent,
        }
    }
}

/// What a HEAD probe reports about a candidate URL.
#[derive(Debug)]
pub struct DownloadResponse {
    pub status_code: u16,
    pub total_bytes: Option<u64>,
    pub accept_ranges: bool,
    pub content_type: Option<String>,
    pub content_disposition: Option<String>,
}

/// The `Cookie` header line: pairs joined as `name=value; name=value`.
pub open spec fn spec_cookie_header(s: Seq<(Seq<char>, Seq<char>)>) -> Seq<char>
    decreases s.len(),
{
    if s.len() == 0 {
        seq![]
    } else if s.len() == 1 {
        s[0].0 + seq!['='] + s[0].1
    } else {
        spec_cookie_header(s.drop_last()) + seq![';', ' '] + s.last().0 + seq!['='] + s.last().1
    }
}

/// Build the `Cookie` header line for the given pairs.
pub fn cookie_header_value(cookies: &Vec<(String, String)>) -> (r: String)
    ensures
        r@ == spec_cookie_header(cookies.deep_view()),
{
    let mut out: Vec<char> = Vec::new();
    let mut i: usize = 0;
    while i < cookies.len()
        invariant
            0 <= i <= cookies@.len(),
            out@ == spec_cookie_header(cookies.deep_view().subrange(0, i as int)),
        decreases cookies@.len() - i,
    {
        proof {
            assert(cookies.deep_view().subrange(0, i + 1).drop_last() =~= cookies.deep_view()
                .subrange(0, i as int));
            assert(cookies.deep_view().subrange(0, i + 1).last() == cookies.deep_view()[i as int]);
            assert(cookies.deep_view()[i as int] == (cookies@[i as int].0@, cookies@[i as int].1@));
        }
        if i > 0 {
            out.push(';');
            out.push(' ');
        }
        let name = str_chars(cookies[i].0.as_str());
        push_range(&mut out, &name, 0, name.len());
        out.push('=');
        let value = str_chars(cookies[i].1.as_str());
        push_range(&mut out, &value, 0, value.len());
        proof {
            assert(name@.subrange(0, name@.len() as int) =~= name@);
            assert(value@.subrange(0, value@.len() as int) =~= value@);
            assert(out@ =~= spec_cookie_header(cookies.deep_view().subrange(0, i + 1)));
        }
        i = i + 1;
    }
    proof {
        assert(cookies.deep_view().subrange(0, cookies.deep_view().len() as int)
            =~= cookies.deep_view());
    }
    string_from_chars(&out)
}

/// The `Range` header line for an inclusive byte range.
pub open spec fn spec_range_header(start: u64, end: u64) -> Seq<char> {
    "bytes="@ + spec_dec_digits(start as int) + seq!['-'] + spec_dec_digits(end as int)
}

/// Build the `Range` header line `bytes=start-end`.
pub fn range_header_value(start: u64, end: u64) -> (r: String)
    ensures
        r@ == spec_range_header(start, end),
{
    let mut out: Vec<char> = Vec::new();
    let prefix = str_chars("bytes=");
    push_range(&mut out, &prefix, 0, prefix.len());
    let s = u64_to_chars(start);
    push_range(&mut out, &s, 0, s.len());
    out.push('-');
    let e = u64_to_chars(end);
    push_range(&mut out, &e, 0, e.len());
    proof {
        assert(prefix@.subrange(0, prefix@.len() as int) =~= prefix@);
        assert(s@.subrange(0, s@.len() as int) =~= s@);
        assert(e@.subrange(0, e@.len() as int) =~= e@);
        assert(out@ =~= spec_range_header(start, end));
    }
    string_from_chars(&out)
}

impl DownloadRequest {
    /// A copy of the request, equal in value.
    pub fn duplicate(&self) -> (r: DownloadRequest)
        ensures
            r.url@ == self.url@,
            r.user_agent@ == self.user_agent@,
            r.headers.deep_view() == self.headers.deep_view(),
            r.cookies.deep_view() == self.cookies.deep_view(),
            r.range == self.range,
            r.proxy.deep_view() == self.proxy.deep_view(),
            match (&r.basic_auth, &self.basic_auth) {
                (Some(a), Some(b)) => a.0@ == b.0@ && a.1@ == b.1@,
                (None, None) => true,
                _ => false,
            },
    {
        DownloadRequest {
            url: self.url.clone(),
            headers: clone_pair_vec(&self.headers),
            cookies: clone_pair_vec(&self.cookies),
            range: self.range,
            proxy: clone_opt_string(&self.proxy),
            basic_auth: match &self.basic_auth {
                Some(p) => Some((p.0.clone(), p.1.clone())),
                None => None,
            },
            user_agent: self.user_agent.clone(),
        }
    }
}

/// Value of a run of decimal digits, most significant first.
pub open spec fn spec_dec_value(s: Seq<char>) -> int
    decreases s.len(),
{
    if s.len() == 0 {
        0
    } else {
        spec_dec_value(s.drop_last()) * 10 + (s.last() as int - 48)
    }
}

/// Every character is a decimal digit.
pub open spec fn spec_all_digits(s: Seq<char>) -> bool {
    forall|i: int| 0 <= i < s.len() ==> '0' <= #[trigger] s[i] && s[i] <= '9'
}

/// The number a `Content-Length` value denotes: an optional leading `+`,
/// then decimal digits, within the unsigned 64-bit range; anything else
/// is no length.
pub open spec fn spec_parse_content_length(s: Seq<char>) -> Option<u64> {
    let digits = if s.len() > 0 && s[0] == '+' {
        s.drop_first()
    } else {
        s
    };
    if digits.len() == 0 || !spec_all_digits(digits) {
        None
    } else if spec_dec_value(digits) <= u64::MAX as int {
        Some(spec_dec_value(digits) as u64)
    } else {
        None
    }
}

/// A digit run's value never shrinks as it extends.
proof fn lemma_dec_value_nonneg(s: Seq<char>)
    requires
        spec_all_digits(s),
    ensures
        spec_dec_value(s) >= 0,
    decreases s.len(),
{
    if s.len() > 0 {
        assert(forall|i: int|
            0 <= i < s.len() - 1 ==> (#[trigger] s.drop_last()[i]) == s[i]);
        lemma_dec_value_nonneg(s.drop_last());
    }
}

/// Parse a `Content-Length` header value.
pub fn parse_content_length(value: &str) -> (r: Option<u64>)
    ensures
        r == spec_parse_content_length(value@),
{
    let v = str_chars(value);
    let start: usize = if v.len() > 0 && v[0] == '+' {
        1
    } else {
        0
    };
    let ghost digits = if v@.len() > 0 && v@[0] == '+' {
        v@.drop_first()
    } else {
        v@
    };
    proof {
        assert(digits =~= v@.subrange(start as int, v@.len() as int));
    }
    if v.len() == start {
        return None;
    }
    let mut acc: u64 = 0;
    let mut i: usize = start;
    while i < v.len()
        invariant
            v@ == value@,
            0 <= start <= i <= v@.len(),
            start <= 1,
            start == 1 <==> v@.len() > 0 && v@[0] == '+',
            digits == v@.subrange(start as int, v@.len() as int),
            digits.len() > 0,
            spec_all_digits(v@.subrange(start as int, i as int)),
            acc as int == spec_dec_value(v@.subrange(start as int, i as int)),
        decreases v@.len() - i,
    {
        proof {
            assert(v@.subrange(start as int, i + 1).drop_last() =~= v@.subrange(
                start as int,
                i as int,
            ));
            assert(v@.subrange(start as int, i + 1).last() == v@[i as int]);
        }
        let c = v[i];
        if !('0' <= c && c <= '9') {
            proof {
                assert(digits[i - start] == v@[i as int]);
                assert(!spec_all_digits(digits));
                if start == 1 {
                    assert(digits =~= value@.drop_first());
                } else {
                    assert(digits =~= v@);
                    assert(digits == value@);
                }
            }
            return None;
        }
        let d: u64 = (c as u64) - 48;
        if acc > (u64::MAX - d) / 10 {
            proof {
                assert(spec_all_digits(v@.subrange(start as int, i + 1)));
                assert(spec_dec_value(v@.subrange(start as int, i + 1)) > u64::MAX as int)
                    by (nonlinear_arith)
                    requires
                        spec_dec_value(v@.subrange(start as int, i + 1)) == acc as int * 10
                            + d as int,
                        acc as int > ((u64::MAX as int - d as int) / 10),
                        0 <= d as int <= 9,
                ;
                if spec_all_digits(digits) {
                    assert(v@.subrange(start as int, i + 1) =~= digits.subrange(
                        0,
                        i + 1 - start as int,
                    ));
                    lemma_dec_value_prefix_le(digits, i + 1 - start as int);
                    assert(spec_dec_value(digits) > u64::MAX as int);
                }
                if start == 1 {
                    assert(digits =~= value@.drop_first());
                } else {
                    assert(digits =~= v@);
                    assert(digits == value@);
                }
            }
            return None;
        }
        proof {
            assert(acc as int * 10 + d as int <= u64::MAX as int) by (nonlinear_arith)
                requires
                    acc as int <= (u64::MAX as int - d as int) / 10,
                    0 <= d as int <= 9,
            ;
        }
        acc = acc * 10 + d;
        i = i + 1;
    }
    proof {
        assert(v@.subrange(start as int, v@.len() as int) =~= digits);
    }
    Some(acc)
}

/// A digit run's prefixes never exceed the whole.
proof fn lemma_dec_value_prefix_le(s: Seq<char>, k: int)
    requires
        spec_all_digits(s),
        0 <= k <= s.len(),
    ensures
        spec_dec_value(s.subrange(0, k)) <= spec_dec_value(s),
    decreases s.len() - k,
{
    if k == s.len() {
        assert(s.subrange(0, k) =~= s);
    } else {
        lemma_dec_value_prefix_le(s, k + 1);
        assert(s.subrange(0, k + 1).drop_last() =~= s.subrange(0, k));
        assert(s.subrange(0, k + 1).last() == s[k]);
        let p = spec_dec_value(s.subrange(0, k));
        assert(forall|i: int| 0 <= i < k ==> (#[trigger] s.subrange(0, k)[i]) == s[i]);
        lemma_dec_value_nonneg(s.subrange(0, k));
        assert(p <= p * 10 + (s[k] as int - 48)) by (nonlinear_arith)
            requires
                p >= 0,
                s[k] as int - 48 >= 0,
        ;
    }
}

/// Whether an `Accept-Ranges` value announces byte ranges, compared
/// ignoring ASCII case.
pub fn accept_ranges_is_bytes(value: &str) -> (r: bool)
    ensures
        r == (spec_lower(value@) == "bytes"@),
{
    let lower = to_ascii_lower(&str_chars(value));
    chars_eq(&lower, &str_chars("bytes"))
}

} // verus!
