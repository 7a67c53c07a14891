//! The download task: identity, lifecycle status, and mutable progress.

use vstd::prelude::*;
use vstd::arithmetic::power::{pow, lemma_pow_adds, lemma_pow_positive, lemma_pow_increases};
use crate::checksum::{ChecksumRequest, ChecksumType};
use crate::clock::now_epoch;
use crate::strutil::{
    spec_hex_digit, spec_hex_value, str_chars, chars_eq, string_from_chars, push_range,
    hex_digit, hex_value,
};

verus! {

/// A 128-bit opaque task identifier with a canonical hyphenated
/// hexadecimal text form.
#[derive(Debug, Clone, Copy, PartialEq, Eq, Structural, Hash)]
pub struct TaskId {
    pub bits: u128,
}

/// The `width` lowercase hexadecimal digits of `n`, most significant first.
pub open spec fn spec_hex_fixed(n: int, width: nat) -> Seq<char>
    decreases width,
{
    if width == 0 {
        seq![]
    } else {
        spec_hex_fixed(n / 16, (width - 1) as nat).push(spec_hex_digit((n % 16) as u8))
    }
}

/// Value of a sequence of hexadecimal digits, most significant first.
pub open spec fn spec_parse_hex(s: Seq<char>) -> int
    decreases s.len(),
{
    if s.len() == 0 {
        0
    } else {
        spec_parse_hex(s.drop_last()) * 16 + spec_hex_value(s.last())
    }
}

/// Every character is a hexadecimal digit.
pub open spec fn spec_all_hex(s: Seq<char>) -> bool {
    forall|i: int| 0 <= i < s.len() ==> spec_hex_value(#[trigger] s[i]) < 16
}

/// The canonical text of a task identifier: 32 hexadecimal digits in five
/// hyphen-separated groups of 8, 4, 4, 4 and 12.
pub open spec fn spec_canonical_id(bits: u128) -> Seq<char> {
    let h = spec_hex_fixed(bits as int, 32);
    h.subrange(0, 8) + seq!['-'] + h.subrange(8, 12) + seq!['-'] + h.subrange(12, 16) + seq!['-']
        + h.subrange(16, 20) + seq!['-'] + h.subrange(20, 32)
}

/// The identifier a text denotes: exactly the canonical shape, with
/// hexadecimal digits of either case accepted.
pub open spec fn spec_parse_canonical_id(s: Seq<char>) -> Option<u128> {
    if s.len() != 36 || s[8] != '-' || s[13] != '-' || s[18] != '-' || s[23] != '-' {
        None
    } else {
        let d = s.subrange(0, 8) + s.subrange(9, 13) + s.subrange(14, 18) + s.subrange(19, 23)
            + s.subrange(24, 36);
        if spec_all_hex(d) {
            Some(spec_parse_hex(d) as u128)
        } else {
            None
        }
    }
}

/// `16^32` written out, from the doubling chain of exponents.
proof fn lemma_pow16_facts()
    ensures
        pow(16, 0) == 1,
        pow(16, 1) == 16,
        pow(16, 32) == 0x100000000000000000000000000000000,
{
    vstd::arithmetic::power::lemma_pow0(16);
    vstd::arithmetic::power::lemma_pow1(16);
    lemma_pow_adds(16, 1, 1);
    assert(pow(16, 2) == 256);
    lemma_pow_adds(16, 2, 2);
    assert(pow(16, 4) == 65536);
    lemma_pow_adds(16, 4, 4);
    assert(pow(16, 8) == 0x100000000);
    lemma_pow_adds(16, 8, 8);
    assert(pow(16, 16) == 0x10000000000000000);
    lemma_pow_adds(16, 16, 16);
    assert(pow(16, 32) == 0x100000000000000000000000000000000);
}

/// A parsed hexadecimal sequence is non-negative and below `16^len`.
pub proof fn lemma_parse_hex_bound(s: Seq<char>)
    requires
        spec_all_hex(s),
    ensures
        0 <= spec_parse_hex(s) < pow(16, s.len()),
    decreases s.len(),
{
    if s.len() == 0 {
        lemma_pow16_facts();
    } else {
        assert(spec_all_hex(s.drop_last())) by {
            assert(forall|i: int|
                0 <= i < s.len() - 1 ==> s.drop_last()[i] == #[trigger] s[i]);
        }
        lemma_parse_hex_bound(s.drop_last());
        assert(spec_hex_value(s.last()) < 16);
        lemma_pow16_facts();
        lemma_pow_adds(16, (s.len() - 1) as nat, 1);
        assert(spec_parse_hex(s.drop_last()) * 16 + 16 <= pow(16, (s.len() - 1) as nat) * 16)
            by (nonlinear_arith)
            requires
                spec_parse_hex(s.drop_last()) < pow(16, (s.len() - 1) as nat),
        ;
    }
}

/// The digits written for `n` are hexadecimal, and parsing them yields `n`
/// back whenever `n < 16^width`.
pub proof fn lemma_hex_fixed_roundtrip(n: int, width: nat)
    requires
        0 <= n < pow(16, width),
    ensures
        spec_all_hex(spec_hex_fixed(n, width)),
        spec_hex_fixed(n, width).len() == width,
        spec_parse_hex(spec_hex_fixed(n, width)) == n,
    decreases width,
{
    if width == 0 {
        lemma_pow16_facts();
    } else {
        lemma_pow16_facts();
        lemma_pow_adds(16, (width - 1) as nat, 1);
        assert(0 <= n / 16 < pow(16, (width - 1) as nat)) by (nonlinear_arith)
            requires
                0 <= n < pow(16, (width - 1) as nat) * 16,
        ;
        lemma_hex_fixed_roundtrip(n / 16, (width - 1) as nat);
        let h = spec_hex_fixed(n, width);
        let hp = spec_hex_fixed(n / 16, (width - 1) as nat);
        let d = (n % 16) as u8;
        assert(0 <= n % 16 < 16) by (nonlinear_arith)
            requires
                n >= 0,
        ;
        assert(d == n % 16);
        assert(spec_hex_value(spec_hex_digit(d)) == d);
        assert(h.drop_last() =~= hp);
        assert(h.last() == spec_hex_digit(d));
        assert(spec_parse_hex(h) == spec_parse_hex(hp) * 16 + d);
        assert(n / 16 * 16 + n % 16 == n) by (nonlinear_arith)
            requires
                n >= 0,
        ;
        assert forall|i: int| 0 <= i < h.len() implies spec_hex_value(#[trigger] h[i]) < 16 by {
            if i < h.len() - 1 {
                assert(h[i] == hp[i]);
            } else {
                assert(h[i] == spec_hex_digit(d));
            }
        }
    }
}

/// Parsing the canonical text of any identifier yields that identifier.
pub proof fn law_task_id_roundtrip(bits: u128)
    ensures
        spec_parse_canonical_id(spec_canonical_id(bits)) == Some(bits),
{
    lemma_pow16_facts();
    lemma_hex_fixed_roundtrip(bits as int, 32);
    let h = spec_hex_fixed(bits as int, 32);
    let s = spec_canonical_id(bits);
    assert(s.len() == 36);
    assert(s[8] == '-');
    assert(s[13] == '-');
    assert(s[18] == '-');
    assert(s[23] == '-');
    let d = s.subrange(0, 8) + s.subrange(9, 13) + s.subrange(14, 18) + s.subrange(19, 23)
        + s.subrange(24, 36);
    assert(d =~= h);
    assert(spec_parse_hex(d) == bits as int);
}

/// Fresh random identifier bits.
///
/// Relies on `uuid::Uuid::new_v4` for a fresh random identifier; nothing is
/// promised of the value.
#[verifier::external_body]
fn fresh_id_bits() -> u128 {
    uuid::Uuid::new_v4().as_u128()
}

impl TaskId {
    /// A fresh random identifier.
    pub fn fresh() -> TaskId {
        TaskId { bits: fresh_id_bits() }
    }

    /// The identifier holding the given bits.
    pub fn from_bits(bits: u128) -> (r: TaskId)
        ensures
            r.bits == bits,
    {
        TaskId { bits }
    }

    /// The canonical hyphenated text of this identifier.
    pub fn to_canonical(&self) -> (r: String)
        ensures
            r@ == spec_canonical_id(self.bits),
    {
        let h = hex_chars_fixed(self.bits, 32);
        let mut out: Vec<char> = Vec::new();
        push_range(&mut out, &h, 0, 8);
        out.push('-');
        push_range(&mut out, &h, 8, 12);
        out.push('-');
        push_range(&mut out, &h, 12, 16);
        out.push('-');
        push_range(&mut out, &h, 16, 20);
        out.push('-');
        push_range(&mut out, &h, 20, 32);
        proof {
            assert(out@ =~= spec_canonical_id(self.bits));
        }
        string_from_chars(&out)
    }

    /// Parse a canonical identifier text.
    pub fn parse_str(value: &str) -> (r: Option<TaskId>)
        ensures
            match r {
                Some(id) => spec_parse_canonical_id(value@) == Some(id.bits),
                None => spec_parse_canonical_id(value@) is None,
            },
    {
        let v = str_chars(value);
        if v.len() != 36 {
            return None;
        }
        if v[8] != '-' || v[13] != '-' || v[18] != '-' || v[23] != '-' {
            return None;
        }
        let mut d: Vec<char> = Vec::new();
        push_range(&mut d, &v, 0, 8);
        push_range(&mut d, &v, 9, 13);
        push_range(&mut d, &v, 14, 18);
        push_range(&mut d, &v, 19, 23);
        push_range(&mut d, &v, 24, 36);
        let ghost gd = v@.subrange(0, 8) + v@.subrange(9, 13) + v@.subrange(14, 18) + v@.subrange(
            19,
            23,
        ) + v@.subrange(24, 36);
        proof {
            assert(d@ =~= gd);
        }
        let mut acc: u128 = 0;
        let mut i: usize = 0;
        proof {
            lemma_pow16_facts();
        }
        while i < 32
            invariant
            value@.len() == 36,
            value@[8] == '-',
            value@[13] == '-',
            value@[18] == '-',
            value@[23] == '-',
            gd == value@.subrange(0, 8) + value@.subrange(9, 13) + value@.subrange(14, 18)
                + value@.subrange(19, 23) + value@.subrange(24, 36),
            d@.len() == 32,
            d@ == gd,
            0 <= i <= 32,
            spec_all_hex(d@.subrange(0, i as int)),
            acc as int == spec_parse_hex(d@.subrange(0, i as int)),
            (acc as int) < pow(16, i as nat),
            pow(16, 32) == 0x100000000000000000000000000000000,
            decreases 32 - i,
        {
            let c = d[i];
            let dv = match hex_value(c) {
                Some(x) => x,
                None => {
                    proof {
                        assert(spec_hex_value(d@[i as int]) == 255);
                        assert(!spec_all_hex(gd));
                    }
                    return None;
                },
            };
            proof {
                lemma_pow16_facts();
                lemma_pow_adds(16, i as nat, 1);
                lemma_pow_increases(16, (i + 1) as nat, 32);
                assert(acc as int * 16 + 16 <= pow(16, i as nat) * 16) by (nonlinear_arith)
                    requires
                        (acc as int) < pow(16, i as nat),
                ;
                lemma_pow_positive(16, i as nat);
                assert(d@.subrange(0, i + 1).drop_last() =~= d@.subrange(0, i as int));
                assert(d@.subrange(0, i + 1).last() == d@[i as int]);
                assert(spec_all_hex(d@.subrange(0, i + 1)));
            }
            acc = acc * 16 + (dv as u128);
            i = i + 1;
        }
        proof {
            assert(d@.subrange(0, 32) =~= d@);
        }
        Some(TaskId { bits: acc })
    }
}

/// Lifecycle state of a task.
#[derive(Debug, Clone, Copy, PartialEq, Eq, Structural)]
pub enum TaskStatus {
    Queued,
    Active,
    Paused,
    Completed,
    Failed,
    Canceled,
}

/// The lowercase name under which a status is persisted.
pub open spec fn spec_status_str(s: TaskStatus) -> Seq<char> {
    match s {
        TaskStatus::Queued => "queued"@,
        TaskStatus::Active => "active"@,
        TaskStatus::Paused => "paused"@,
        TaskStatus::Completed => "completed"@,
        TaskStatus::Failed => "failed"@,
        TaskStatus::Canceled => "canceled"@,
    }
}

/// The status a persisted name denotes, if any.
pub open spec fn spec_status_from(s: Seq<char>) -> Option<TaskStatus> {
    if s == "queued"@ {
        Some(TaskStatus::Queued)
    } else if s == "active"@ {
        Some(TaskStatus::Active)
    } else if s == "paused"@ {
        Some(TaskStatus::Paused)
    } else if s == "completed"@ {
        Some(TaskStatus::Completed)
    } else if s == "failed"@ {
        Some(TaskStatus::Failed)
    } else if s == "canceled"@ {
        Some(TaskStatus::Canceled)
    } else {
        None
    }
}

impl TaskStatus {
    pub fn as_str(&self) -> (r: &'static str)
        ensures
            r@ == spec_status_str(*self),
    {
        match self {
            TaskStatus::Queued => "queued",
            TaskStatus::Active => "active",
            TaskStatus::Paused => "paused",
            TaskStatus::Completed => "completed",
            TaskStatus::Failed => "failed",
            TaskStatus::Canceled => "canceled",
        }
    }

    pub fn from_str(value: &str) -> (r: Option<TaskStatus>)
        ensures
            r == spec_status_from(value@),
    {
        let v = str_chars(value);
        if chars_eq(&v, &str_chars("queued")) {
            Some(TaskStatus::Queued)
        } else if chars_eq(&v, &str_chars("active")) {
            Some(TaskStatus::Active)
        } else if chars_eq(&v, &str_chars("paused")) {
            Some(TaskStatus::Paused)
        } else if chars_eq(&v, &str_chars("completed")) {
            Some(TaskStatus::Completed)
        } else if chars_eq(&v, &str_chars("failed")) {
            Some(TaskStatus::Failed)
        } else if chars_eq(&v, &str_chars("canceled")) {
            Some(TaskStatus::Canceled)
        } else {
            None
        }
    }
}

/// Reading back the persisted name of a status yields the status.
pub proof fn law_status_roundtrip(s: TaskStatus)
    ensures
        spec_status_from(spec_status_str(s)) == Some(s),
{
    reveal_strlit("queued");
    reveal_strlit("active");
    reveal_strlit("paused");
    reveal_strlit("completed");
    reveal_strlit("failed");
    reveal_strlit("canceled");
    match s {
        TaskStatus::Queued => {
        },
        TaskStatus::Active => {
            assert("active"@[0] != "queued"@[0]);
        },
        TaskStatus::Paused => {
            assert("paused"@[0] != "queued"@[0]);
            assert("paused"@[0] != "active"@[0]);
        },
        TaskStatus::Completed => {
            assert("completed"@.len() != "queued"@.len());
            assert("completed"@.len() != "active"@.len());
            assert("completed"@.len() != "paused"@.len());
        },
        TaskStatus::Failed => {
            assert("failed"@[0] != "queued"@[0]);
            assert("failed"@[0] != "active"@[0]);
            assert("failed"@[0] != "paused"@[0]);
            assert("failed"@.len() != "completed"@.len());
        },
        TaskStatus::Canceled => {
            assert("canceled"@.len() != "queued"@.len());
            assert("canceled"@.len() != "active"@.len());
            assert("canceled"@.len() != "paused"@.len());
            assert("canceled"@.len() != "completed"@.len());
            assert("canceled"@.len() != "failed"@.len());
        },
    }
}

/// The `width` lowercase hexadecimal digits of `n`, most significant first.
fn hex_chars_fixed(n: u128, width: usize) -> (v: Vec<char>)
    ensures
        v@ == spec_hex_fixed(n as int, width as nat),
        v@.len() == width,
    decreases width,
{
    if width == 0 {
        let v: Vec<char> = Vec::new();
        proof {
            assert(v@ =~= spec_hex_fixed(n as int, 0));
        }
        v
    } else {
        let mut v = hex_chars_fixed(n / 16, width - 1);
        v.push(hex_digit((n % 16) as u8));
        proof {
            assert(v@ =~= spec_hex_fixed(n as int, width as nat));
        }
        v
    }
}

/// The mathematical value of a task: every field over sequences and plain
/// values.
pub ghost struct TaskView {
    pub id: u128,
    pub url: Seq<char>,
    pub dest_path: Seq<char>,
    pub status: TaskStatus,
    pub priority: i32,
    pub total_bytes: u64,
    pub downloaded_bytes: u64,
    pub headers: Seq<(Seq<char>, Seq<char>)>,
    pub cookies: Seq<(Seq<char>, Seq<char>)>,
    pub mirrors: Seq<Seq<char>>,
    pub checksum: Option<(ChecksumType, Seq<char>)>,
    pub proxy_url: Option<Seq<char>>,
    pub auth_user: Option<Seq<char>>,
    pub auth_pass: Option<Seq<char>>,
    pub created_at: u64,
    pub updated_at: u64,
    pub error: Option<Seq<char>>,
}

/// A download task: what to fetch, where to put it, and how far it has
/// come.
#[derive(Debug)]
pub struct Task {
    pub id: TaskId,
    pub url: String,
    pub dest_path: String,
    pub status: TaskStatus,
    pub priority: i32,
    pub total_bytes: u64,
    pub downloaded_bytes: u64,
    pub headers: Vec<(String, String)>,
    pub cookies: Vec<(String, String)>,
    pub mirrors: Vec<String>,
    pub checksum: Option<ChecksumRequest>,
    pub proxy_url: Option<String>,
    pub auth_user: Option<String>,
    pub auth_pass: Option<String>,
    pub created_at: u64,
    pub updated_at: u64,
    pub error: Option<String>,
}

impl View for Task {
    type V = TaskView;

    open spec fn view(&self) -> TaskView {
        TaskView {
            id: self.id.bits,
            url: self.url@,
            dest_path: self.dest_path@,
            status: self.status,
            priority: self.priority,
            total_bytes: self.total_bytes,
            downloaded_bytes: self.downloaded_bytes,
            headers: self.headers.deep_view(),
            cookies: self.cookies.deep_view(),
            mirrors: self.mirrors.deep_view(),
            checksum: match self.checksum {
                Some(ref c) => Some((c.checksum_type, c.expected_hex@)),
                None => None,
            },
            proxy_url: self.proxy_url.deep_view(),
            auth_user: self.auth_user.deep_view(),
            auth_pass: self.auth_pass.deep_view(),
            created_at: self.created_at,
            updated_at: self.updated_at,
            error: self.error.deep_view(),
        }
    }
}

/// The mirrors kept as extra download candidates: every mirror other than
/// the primary URL, in order.
pub open spec fn spec_extra_candidates(mirrors: Seq<Seq<char>>, url: Seq<char>) -> Seq<Seq<char>>
    decreases mirrors.len(),
{
    if mirrors.len() == 0 {
        seq![]
    } else {
        spec_extra_candidates(mirrors.drop_last(), url) + (if mirrors.last() == url {
            seq![]
        } else {
            seq![mirrors.last()]
        })
    }
}

impl Task {
    /// A fresh task for `url`, to be stored at `dest_path`: queued, nothing
    /// downloaded, created and updated at the same moment.
    pub fn new(url: String, dest_path: String) -> (t: Task)
        ensures
            t@.url == url@,
            t@.dest_path == dest_path@,
            t@.status == TaskStatus::Queued,
            t@.priority == 0,
            t@.total_bytes == 0,
            t@.downloaded_bytes == 0,
            t@.headers.len() == 0,
            t@.cookies.len() == 0,
            t@.mirrors.len() == 0,
            t@.checksum is None,
            t@.proxy_url is None,
            t@.auth_user is None,
            t@.auth_pass is None,
            t@.error is None,
            t@.created_at == t@.updated_at,
    {
        let now = now_epoch();
        Task {
            id: TaskId::fresh(),
            url,
            dest_path,
            status: TaskStatus::Queued,
            priority: 0,
            total_bytes: 0,
            downloaded_bytes: 0,
            headers: Vec::new(),
            cookies: Vec::new(),
            mirrors: Vec::new(),
            checksum: None,
            proxy_url: None,
            auth_user: None,
            auth_pass: None,
            created_at: now,
            updated_at: now,
            error: None,
        }
    }

    /// Record that the task changed now; only `updated_at` moves.
    pub fn touch(&mut self)
        ensures
            final(self)@ == (TaskView { updated_at: final(self)@.updated_at, ..old(self)@ }),
    {
        self.updated_at = now_epoch();
    }

    /// The ordered candidate URLs of the task: its URL first, then every
    /// mirror that differs from it.
    pub fn url_candidates(&self) -> (r: Vec<String>)
        ensures
            r.deep_view() == seq![self@.url] + spec_extra_candidates(self@.mirrors, self@.url),
    {
        let mut urls: Vec<String> = Vec::new();
        urls.push(self.url.clone());
        proof {
            assert(urls.deep_view()[0] == self@.url);
            assert(urls.deep_view() =~= seq![self@.url] + spec_extra_candidates(
                self@.mirrors.subrange(0, 0),
                self@.url,
            ));
        }
        let mut i: usize = 0;
        while i < self.mirrors.len()
            invariant
                0 <= i <= self.mirrors@.len(),
                self@.mirrors.len() == self.mirrors@.len(),
                urls.deep_view() == seq![self@.url] + spec_extra_candidates(
                    self@.mirrors.subrange(0, i as int),
                    self@.url,
                ),
            decreases self.mirrors@.len() - i,
        {
            proof {
                assert(self@.mirrors.subrange(0, i + 1).drop_last() =~= self@.mirrors.subrange(
                    0,
                    i as int,
                ));
                assert(self@.mirrors.subrange(0, i + 1).last() == self@.mirrors[i as int]);
            }
            let ghost pre = urls.deep_view();
            if self.mirrors[i] != self.url {
                urls.push(self.mirrors[i].clone());
                proof {
                    assert(self@.mirrors[i as int] == self.mirrors@[i as int]@);
                    assert forall|j: int| 0 <= j < pre.len() implies urls.deep_view()[j] == pre[j]
                        by {
                        assert(urls.deep_view()[j] == urls@[j]@);
                    }
                    assert(urls.deep_view()[pre.len() as int] == self@.mirrors[i as int]);
                    assert(urls.deep_view() =~= pre.push(self@.mirrors[i as int]));
                    assert(urls.deep_view() =~= seq![self@.url] + spec_extra_candidates(
                        self@.mirrors.subrange(0, i + 1),
                        self@.url,
                    ));
                }
            } else {
                proof {
                    assert(self@.mirrors[i as int] == self.mirrors@[i as int]@);
                    assert(urls.deep_view() =~= seq![self@.url] + spec_extra_candidates(
                        self@.mirrors.subrange(0, i + 1),
                        self@.url,
                    ));
                }
            }
            i = i + 1;
        }
        proof {
            assert(self@.mirrors.subrange(0, self.mirrors@.len() as int) =~= self@.mirrors);
        }
        urls
    }

    /// A copy of the task, equal in value.
    pub fn duplicate(&self) -> (t: Task)
        ensures
            t@ == self@,
    {
        Task {
            id: self.id,
            url: self.url.clone(),
            dest_path: self.dest_path.clone(),
            status: self.status,
            priority: self.priority,
            total_bytes: self.total_bytes,
            downloaded_bytes: self.downloaded_bytes,
            headers: crate::strutil::clone_pair_vec(&self.headers),
            cookies: crate::strutil::clone_pair_vec(&self.cookies),
            mirrors: crate::strutil::clone_string_vec(&self.mirrors),
            checksum: match &self.checksum {
                Some(c) => Some(c.duplicate()),
                None => None,
            },
            proxy_url: crate::strutil::clone_opt_string(&self.proxy_url),
            auth_user: crate::strutil::clone_opt_string(&self.auth_user),
            auth_pass: crate::strutil::clone_opt_string(&self.auth_pass),
            created_at: self.created_at,
            updated_at: self.updated_at,
            error: crate::strutil::clone_opt_string(&self.error),
        }
    }
}

} // verus!
