//! Post-download integrity verification: digest algorithms and the
//! case-insensitive hexadecimal comparison of an expected digest.

use vstd::prelude::*;
use crate::strutil::{spec_lower, str_chars, to_ascii_lower, chars_eq, spec_hex_digit, hex_digit};

verus! {

/// Digest algorithm of a checksum request.
#[derive(Debug, Clone, Copy, PartialEq, Eq, Structural)]
pub enum ChecksumType {
    Md5,
    Sha1,
    Sha256,
}

/// The lowercase name under which an algorithm is persisted.
pub open spec fn spec_checksum_type_str(t: ChecksumType) -> Seq<char> {
    match t {
        ChecksumType::Md5 => "md5"@,
        ChecksumType::Sha1 => "sha1"@,
        ChecksumType::Sha256 => "sha256"@,
    }
}

/// The algorithm a persisted name denotes, if any.
pub open spec fn spec_checksum_type_from(s: Seq<char>) -> Option<ChecksumType> {
    if s == "md5"@ {
        Some(ChecksumType::Md5)
    } else if s == "sha1"@ {
        Some(ChecksumType::Sha1)
    } else if s == "sha256"@ {
        Some(ChecksumType::Sha256)
    } else {
        None
    }
}

impl ChecksumType {
    pub fn as_str(&self) -> (r: &'static str)
        ensures
            r@ == spec_checksum_type_str(*self),
    {
        match self {
            ChecksumType::Md5 => "md5",
            ChecksumType::Sha1 => "sha1",
            ChecksumType::Sha256 => "sha256",
        }
    }

    pub fn from_str(value: &str) -> (r: Option<ChecksumType>)
        ensures
            r == spec_checksum_type_from(value@),
    {
        let v = str_chars(value);
        if chars_eq(&v, &str_chars("md5")) {
            Some(ChecksumType::Md5)
        } else if chars_eq(&v, &str_chars("sha1")) {
            Some(ChecksumType::Sha1)
        } else if chars_eq(&v, &str_chars("sha256")) {
            Some(ChecksumType::Sha256)
        } else {
            None
        }
    }
}

/// Reading back the persisted name of an algorithm yields the algorithm.
pub proof fn law_checksum_type_roundtrip(t: ChecksumType)
    ensures
        spec_checksum_type_from(spec_checksum_type_str(t)) == Some(t),
{
    reveal_strlit("md5");
    reveal_strlit("sha1");
    reveal_strlit("sha256");
    match t {
        ChecksumType::Md5 => {
        },
        ChecksumType::Sha1 => {
            assert("sha1"@.len() != "md5"@.len());
        },
        ChecksumType::Sha256 => {
            assert("sha256"@.len() != "md5"@.len());
            assert("sha256"@.len() != "sha1"@.len());
        },
    }
}

/// A user-supplied integrity expectation: an algorithm and the expected
/// digest in hexadecimal.
#[derive(Debug)]
pub struct ChecksumRequest {
    pub checksum_type: ChecksumType,
    pub expected_hex: String,
}

impl View for ChecksumRequest {
    type V = (ChecksumType, Seq<char>);

    open spec fn view(&self) -> (ChecksumType, Seq<char>) {
        (self.checksum_type, self.expected_hex@)
    }
}

impl ChecksumRequest {
    pub fn duplicate(&self) -> (r: ChecksumRequest)
        ensures
            r@ == self@,
    {
        ChecksumRequest { checksum_type: self.checksum_type, expected_hex: self.expected_hex.clone() }
    }
}

/// The MD5 digest of a byte sequence.
pub uninterp spec fn md5_of(data: Seq<u8>) -> Seq<u8>;

/// The SHA-1 digest of a byte sequence.
pub uninterp spec fn sha1_of(data: Seq<u8>) -> Seq<u8>;

/// The SHA-256 digest of a byte sequence.
pub uninterp spec fn sha256_of(data: Seq<u8>) -> Seq<u8>;

/// Relies on the `md5` digest implementation: the 16-byte MD5 digest, a
/// function of the input bytes alone.
#[verifier::external_body]
fn md5_digest(data: &[u8]) -> (r: Vec<u8>)
    ensures
        r@ == md5_of(data@),
        r@.len() == 16,
{
    let mut hasher = <md5::Md5 as md5::Digest>::new();
    <md5::Md5 as md5::Digest>::update(&mut hasher, data);
    <md5::Md5 as md5::Digest>::finalize(hasher).to_vec()
}

/// Relies on the `sha1` digest implementation: the 20-byte SHA-1 digest,
/// a function of the input bytes alone.
#[verifier::external_body]
fn sha1_digest(data: &[u8]) -> (r: Vec<u8>)
    ensures
        r@ == sha1_of(data@),
        r@.len() == 20,
{
    let mut hasher = <sha1::Sha1 as sha1::Digest>::new();
    <sha1::Sha1 as sha1::Digest>::update(&mut hasher, data);
    <sha1::Sha1 as sha1::Digest>::finalize(hasher).to_vec()
}

/// Relies on the `sha2` digest implementation: the 32-byte SHA-256
/// digest, a function of the input bytes alone.
#[verifier::external_body]
fn sha256_digest(data: &[u8]) -> (r: Vec<u8>)
    ensures
        r@ == sha256_of(data@),
        r@.len() == 32,
{
    let mut hasher = <sha2::Sha256 as sha2::Digest>::new();
    <sha2::Sha256 as sha2::Digest>::update(&mut hasher, data);
    <sha2::Sha256 as sha2::Digest>::finalize(hasher).to_vec()
}

/// The lowercase hexadecimal text of a byte sequence, two digits per
/// byte.
pub open spec fn spec_bytes_hex(s: Seq<u8>) -> Seq<char>
    decreases s.len(),
{
    if s.len() == 0 {
        seq![]
    } else {
        spec_bytes_hex(s.drop_last()) + seq![
            spec_hex_digit(s.last() / 16),
            spec_hex_digit(s.last() % 16),
        ]
    }
}

fn bytes_hex(s: &Vec<u8>) -> (r: Vec<char>)
    ensures
        r@ == spec_bytes_hex(s@),
{
    let mut r: Vec<char> = Vec::new();
    let mut i: usize = 0;
    while i < s.len()
        invariant
            0 <= i <= s@.len(),
            r@ == spec_bytes_hex(s@.subrange(0, i as int)),
        decreases s@.len() - i,
    {
        proof {
            assert(s@.subrange(0, i + 1).drop_last() =~= s@.subrange(0, i as int));
            assert(s@.subrange(0, i + 1).last() == s@[i as int]);
        }
        let b = s[i];
        r.push(hex_digit(b / 16));
        r.push(hex_digit(b % 16));
        proof {
            assert(r@ =~= spec_bytes_hex(s@.subrange(0, i + 1)));
        }
        i = i + 1;
    }
    proof {
        assert(s@.subrange(0, s@.len() as int) =~= s@);
    }
    r
}

/// The digest of `data` under the requested algorithm, in lowercase
/// hexadecimal.
pub open spec fn spec_digest_hex(t: ChecksumType, data: Seq<u8>) -> Seq<char> {
    match t {
        ChecksumType::Md5 => spec_bytes_hex(md5_of(data)),
        ChecksumType::Sha1 => spec_bytes_hex(sha1_of(data)),
        ChecksumType::Sha256 => spec_bytes_hex(sha256_of(data)),
    }
}

/// Two hexadecimal texts match when they are equal ignoring ASCII case.
pub open spec fn spec_hex_matches(actual: Seq<char>, expected: Seq<char>) -> bool {
    spec_lower(actual) == spec_lower(expected)
}

/// Case-insensitive comparison of a computed digest against an expected
/// one; this is where a checksum decision is reached for every possible
/// digest value.
pub fn hex_matches(actual: &Vec<char>, expected: &str) -> (r: bool)
    ensures
        r == spec_hex_matches(actual@, expected@),
{
    let a = to_ascii_lower(actual);
    let e = to_ascii_lower(&str_chars(expected));
    chars_eq(&a, &e)
}

/// Verify the bytes of a completed download against a checksum request:
/// the digest of the data, under the requested algorithm, must equal the
/// expected hexadecimal text ignoring case.
pub fn verify_checksum(data: &[u8], req: &ChecksumRequest) -> (r: bool)
    ensures
        r == spec_hex_matches(spec_digest_hex(req.checksum_type, data@), req@.1),
{
    let digest = match req.checksum_type {
        ChecksumType::Md5 => md5_digest(data),
        ChecksumType::Sha1 => sha1_digest(data),
        ChecksumType::Sha256 => sha256_digest(data),
    };
    let hex = bytes_hex(&digest);
    hex_matches(&hex, req.expected_hex.as_str())
}

} // verus!
