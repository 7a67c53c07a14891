//! Verified character-sequence utilities: searching, case folding, decimal
//! and hexadecimal digits, and the bridge between `&str` and `Vec<char>`.

use vstd::prelude::*;

verus! {

/// `needle` occurs in `hay` starting at position `i`.
pub open spec fn match_at(hay: Seq<char>, needle: Seq<char>, i: int) -> bool {
    &&& 0 <= i
    &&& i + needle.len() <= hay.len()
    &&& forall|k: int| 0 <= k < needle.len() ==> #[trigger] hay[i + k] == needle[k]
}

/// First position at or after `from` where `needle` occurs in `hay`, or `-1`.
pub open spec fn spec_index_of(hay: Seq<char>, needle: Seq<char>, from: int) -> int
    decreases hay.len() - from,
{
    if from < 0 || from + needle.len() > hay.len() {
        -1
    } else if match_at(hay, needle, from) {
        from
    } else {
        spec_index_of(hay, needle, from + 1)
    }
}

/// The result of `spec_index_of` is `-1` or a real first match.
pub proof fn lemma_index_of_props(hay: Seq<char>, needle: Seq<char>, from: int)
    requires
        0 <= from,
    ensures
        spec_index_of(hay, needle, from) == -1 || (from <= spec_index_of(hay, needle, from)
            && match_at(hay, needle, spec_index_of(hay, needle, from))),
    decreases hay.len() - from,
{
    if from + needle.len() > hay.len() {
    } else if match_at(hay, needle, from) {
    } else {
        lemma_index_of_props(hay, needle, from + 1);
    }
}

/// Does `needle` occur at position `i` of `hay`?
pub fn is_match_at(hay: &Vec<char>, needle: &Vec<char>, i: usize) -> (r: bool)
    ensures
        r == match_at(hay@, needle@, i as int),
{
    if i > hay.len() || needle.len() > hay.len() - i {
        assert(!match_at(hay@, needle@, i as int));
        return false;
    }
    let mut k: usize = 0;
    while k < needle.len()
        invariant
            i + needle.len() <= hay.len(),
            0 <= k <= needle.len(),
            forall|j: int| 0 <= j < k ==> #[trigger] hay@[i + j] == needle@[j],
        decreases needle.len() - k,
    {
        if hay[i + k] != needle[k] {
            return false;
        }
        k = k + 1;
    }
    true
}

/// First occurrence of `needle` at or after `from`, as `spec_index_of` gives
/// it.
pub fn index_of_from(hay: &Vec<char>, needle: &Vec<char>, from: usize) -> (r: Option<usize>)
    ensures
        match r {
            Some(i) => spec_index_of(hay@, needle@, from as int) == i as int,
            None => spec_index_of(hay@, needle@, from as int) == -1,
        },
{
    let mut i: usize = from;
    loop
        invariant
            from <= i,
            spec_index_of(hay@, needle@, from as int) == spec_index_of(hay@, needle@, i as int),
        decreases hay@.len() + 1 - i,
    {
        if i > hay.len() || needle.len() > hay.len() - i {
            assert(spec_index_of(hay@, needle@, i as int) == -1);
            return None;
        }
        if is_match_at(hay, needle, i) {
            return Some(i);
        }
        i = i + 1;
    }
}

/// First occurrence of `needle` in `hay`.
pub fn index_of(hay: &Vec<char>, needle: &Vec<char>) -> (r: Option<usize>)
    ensures
        match r {
            Some(i) => spec_index_of(hay@, needle@, 0) == i as int,
            None => spec_index_of(hay@, needle@, 0) == -1,
        },
{
    index_of_from(hay, needle, 0)
}

/// Last position at or before `upto` where `needle` occurs in `hay`, or `-1`.
pub open spec fn spec_rindex_of(hay: Seq<char>, needle: Seq<char>, upto: int) -> int
    decreases upto + 1,
{
    if upto < 0 {
        -1
    } else if match_at(hay, needle, upto) {
        upto
    } else {
        spec_rindex_of(hay, needle, upto - 1)
    }
}

/// Last occurrence of `needle` at or before `upto`.
pub fn rindex_of_upto(hay: &Vec<char>, needle: &Vec<char>, upto: usize) -> (r: Option<usize>)
    ensures
        match r {
            Some(i) => spec_rindex_of(hay@, needle@, upto as int) == i as int,
            None => spec_rindex_of(hay@, needle@, upto as int) == -1,
        },
{
    let mut i: usize = upto;
    loop
        invariant
            0 <= i <= upto,
            spec_rindex_of(hay@, needle@, upto as int) == spec_rindex_of(hay@, needle@, i as int),
        decreases i + 1,
    {
        if is_match_at(hay, needle, i) {
            return Some(i);
        }
        if i == 0 {
            assert(spec_rindex_of(hay@, needle@, -1) == -1);
            return None;
        }
        i = i - 1;
    }
}

/// `hay` starts with `prefix`.
pub fn starts_with(hay: &Vec<char>, prefix: &Vec<char>) -> (r: bool)
    ensures
        r == match_at(hay@, prefix@, 0),
{
    is_match_at(hay, prefix, 0)
}

/// ASCII lower-casing of one character.
pub open spec fn spec_lower_char(c: char) -> char {
    if 'A' <= c && c <= 'Z' {
        ((c as u8) + 32) as char
    } else {
        c
    }
}

/// ASCII lower-casing of a character sequence.
pub open spec fn spec_lower(s: Seq<char>) -> Seq<char> {
    s.map_values(|c: char| spec_lower_char(c))
}

pub fn to_ascii_lower(s: &Vec<char>) -> (r: Vec<char>)
    ensures
        r@ == spec_lower(s@),
{
    let mut r: Vec<char> = Vec::new();
    let mut i: usize = 0;
    while i < s.len()
        invariant
            0 <= i <= s@.len(),
            r@.len() == i,
            forall|j: int| 0 <= j < i ==> #[trigger] r@[j] == spec_lower_char(s@[j]),
        decreases s@.len() - i,
    {
        let c = s[i];
        if 'A' <= c && c <= 'Z' {
            r.push(((c as u8) + 32) as char);
        } else {
            r.push(c);
        }
        i = i + 1;
    }
    proof {
        assert(r@ =~= spec_lower(s@));
    }
    r
}

/// Character-wise equality of two vectors.
pub fn chars_eq(a: &Vec<char>, b: &Vec<char>) -> (r: bool)
    ensures
        r == (a@ == b@),
{
    if a.len() != b.len() {
        assert(a@ != b@);
        return false;
    }
    let mut i: usize = 0;
    while i < a.len()
        invariant
            a@.len() == b@.len(),
            0 <= i <= a@.len(),
            forall|j: int| 0 <= j < i ==> #[trigger] a@[j] == b@[j],
        decreases a@.len() - i,
    {
        if a[i] != b[i] {
            return false;
        }
        i = i + 1;
    }
    proof {
        assert(a@ =~= b@);
    }
    true
}

/// The characters of `s`, in order.
pub fn str_chars(s: &str) -> (v: Vec<char>)
    ensures
        v@ == s@,
{
    let n = s.unicode_len();
    let mut v: Vec<char> = Vec::new();
    let mut i: usize = 0;
    while i < n
        invariant
            n == s@.len(),
            0 <= i <= n,
            v@.len() == i,
            forall|j: int| 0 <= j < i ==> #[trigger] v@[j] == s@[j],
        decreases n - i,
    {
        v.push(s.get_char(i));
        i = i + 1;
    }
    proof {
        assert(v@ =~= s@);
    }
    v
}

/// Builds the `String` holding exactly the given characters.
///
/// Relies on `String` implementing `FromIterator<char>`: collecting an
/// iterator of characters yields the string of those characters in order.
#[verifier::external_body]
pub(crate) fn string_from_chars(v: &Vec<char>) -> (s: String)
    ensures
        s@ == v@,
{
    v.iter().collect()
}

/// Value of an ASCII hexadecimal digit, or 255 for any other character.
pub open spec fn spec_hex_value(c: char) -> u8 {
    if '0' <= c && c <= '9' {
        ((c as u8) - 48) as u8
    } else if 'a' <= c && c <= 'f' {
        ((c as u8) - 87) as u8
    } else if 'A' <= c && c <= 'F' {
        ((c as u8) - 55) as u8
    } else {
        255u8
    }
}

/// Hexadecimal value of one character; `None` for a non-digit.
pub fn hex_value(c: char) -> (r: Option<u8>)
    ensures
        match r {
            Some(v) => spec_hex_value(c) == v && v < 16,
            None => spec_hex_value(c) == 255,
        },
{
    if '0' <= c && c <= '9' {
        Some((c as u8) - 48)
    } else if 'a' <= c && c <= 'f' {
        Some((c as u8) - 87)
    } else if 'A' <= c && c <= 'F' {
        Some((c as u8) - 55)
    } else {
        None
    }
}

/// The lowercase hexadecimal digit for a value below 16.
pub open spec fn spec_hex_digit(v: u8) -> char {
    if v < 10 {
        (v + 48) as char
    } else {
        (v + 87) as char
    }
}

pub fn hex_digit(v: u8) -> (c: char)
    requires
        v < 16,
    ensures
        c == spec_hex_digit(v),
{
    if v < 10 {
        (v + 48) as char
    } else {
        (v + 87) as char
    }
}

/// Decimal digits of `n`, most significant first.
pub open spec fn spec_dec_digits(n: int) -> Seq<char>
    decreases n,
{
    if n < 0 {
        seq![]
    } else if n < 10 {
        seq![((n + 48) as char)]
    } else {
        spec_dec_digits(n / 10).push(((n % 10 + 48) as char))
    }
}

/// The decimal form of `n`.
pub fn u64_to_chars(n: u64) -> (v: Vec<char>)
    ensures
        v@ == spec_dec_digits(n as int),
    decreases n,
{
    if n < 10 {
        let mut v: Vec<char> = Vec::new();
        v.push(((n as u8) + 48) as char);
        proof {
            assert(v@ =~= spec_dec_digits(n as int));
        }
        v
    } else {
        let mut v = u64_to_chars(n / 10);
        v.push((((n % 10) as u8) + 48) as char);
        proof {
            assert(v@ =~= spec_dec_digits(n as int));
        }
        v
    }
}

/// Append `src[a..b]` to `out`.
pub fn push_range(out: &mut Vec<char>, src: &Vec<char>, a: usize, b: usize)
    requires
        a <= b <= src@.len(),
    ensures
        final(out)@ == old(out)@ + src@.subrange(a as int, b as int),
{
    let mut i: usize = a;
    while i < b
        invariant
            a <= i <= b <= src@.len(),
            out@ == old(out)@ + src@.subrange(a as int, i as int),
        decreases b - i,
    {
        out.push(src[i]);
        proof {
            assert(out@ =~= old(out)@ + src@.subrange(a as int, i + 1));
        }
        i = i + 1;
    }
    proof {
        assert(out@ =~= old(out)@ + src@.subrange(a as int, b as int));
    }
}

/// A character vector's deep view is its view.
pub proof fn lemma_vec_chars_deep(v: Vec<char>)
    ensures
        v.deep_view() == v@,
{
    assert(v.deep_view() =~= v@);
}

/// The characters `src[a..b]` as a fresh vector.
pub fn sub_vec(src: &Vec<char>, a: usize, b: usize) -> (r: Vec<char>)
    requires
        a <= b <= src@.len(),
    ensures
        r@ == src@.subrange(a as int, b as int),
{
    let mut r: Vec<char> = Vec::new();
    push_range(&mut r, src, a, b);
    proof {
        assert(r@ =~= src@.subrange(a as int, b as int));
    }
    r
}

/// `hay` ends with `suffix`.
pub open spec fn spec_ends_with(hay: Seq<char>, suffix: Seq<char>) -> bool {
    suffix.len() <= hay.len() && match_at(hay, suffix, hay.len() - suffix.len())
}

pub fn ends_with(hay: &Vec<char>, suffix: &Vec<char>) -> (r: bool)
    ensures
        r == spec_ends_with(hay@, suffix@),
{
    if suffix.len() > hay.len() {
        return false;
    }
    is_match_at(hay, suffix, hay.len() - suffix.len())
}

/// A copy of a vector of strings, character for character.
pub fn clone_string_vec(v: &Vec<String>) -> (r: Vec<String>)
    ensures
        r.deep_view() == v.deep_view(),
{
    let mut r: Vec<String> = Vec::new();
    let mut i: usize = 0;
    while i < v.len()
        invariant
            0 <= i <= v@.len(),
            r@.len() == i,
            forall|j: int| 0 <= j < i ==> (#[trigger] r@[j])@ == v@[j]@,
        decreases v@.len() - i,
    {
        r.push(v[i].clone());
        i = i + 1;
    }
    proof {
        assert(r.deep_view() =~= v.deep_view());
    }
    r
}

/// A copy of a vector of string pairs, character for character.
pub fn clone_pair_vec(v: &Vec<(String, String)>) -> (r: Vec<(String, String)>)
    ensures
        r.deep_view() == v.deep_view(),
{
    let mut r: Vec<(String, String)> = Vec::new();
    let mut i: usize = 0;
    while i < v.len()
        invariant
            0 <= i <= v@.len(),
            r@.len() == i,
            forall|j: int|
                0 <= j < i ==> (#[trigger] r@[j]).0@ == v@[j].0@ && r@[j].1@ == v@[j].1@,
        decreases v@.len() - i,
    {
        let pair = (v[i].0.clone(), v[i].1.clone());
        r.push(pair);
        i = i + 1;
    }
    proof {
        assert(r.deep_view() =~= v.deep_view());
    }
    r
}

/// A copy of an optional string.
pub fn clone_opt_string(v: &Option<String>) -> (r: Option<String>)
    ensures
        r.deep_view() == v.deep_view(),
{
    match v {
        Some(s) => Some(s.clone()),
        None => None,
    }
}

} // verus!
