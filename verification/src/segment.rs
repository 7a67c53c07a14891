//! Byte-range segments and the segment plan for a download.

use vstd::prelude::*;
use crate::strutil::{str_chars, chars_eq};

verus! {

/// Lifecycle of one byte-range segment.
#[derive(Debug, Clone, Copy, PartialEq, Eq, Structural)]
pub enum SegmentStatus {
    Pending,
    Active,
    Completed,
    Failed,
}

/// The lowercase name under which a segment status is persisted.
pub open spec fn spec_segment_status_str(s: SegmentStatus) -> Seq<char> {
    match s {
        SegmentStatus::Pending => "pending"@,
        SegmentStatus::Active => "active"@,
        SegmentStatus::Completed => "completed"@,
        SegmentStatus::Failed => "failed"@,
    }
}

/// The segment status a persisted name denotes, if any.
pub open spec fn spec_segment_status_from(s: Seq<char>) -> Option<SegmentStatus> {
    if s == "pending"@ {
        Some(SegmentStatus::Pending)
    } else if s == "active"@ {
        Some(SegmentStatus::Active)
    } else if s == "completed"@ {
        Some(SegmentStatus::Completed)
    } else if s == "failed"@ {
        Some(SegmentStatus::Failed)
    } else {
        None
    }
}

impl SegmentStatus {
    pub fn as_str(&self) -> (r: &'static str)
        ensures
            r@ == spec_segment_status_str(*self),
    {
        match self {
            SegmentStatus::Pending => "pending",
            SegmentStatus::Active => "active",
            SegmentStatus::Completed => "completed",
            SegmentStatus::Failed => "failed",
        }
    }

    pub fn from_str(value: &str) -> (r: Option<SegmentStatus>)
        ensures
            r == spec_segment_status_from(value@),
    {
        let v = str_chars(value);
        if chars_eq(&v, &str_chars("pending")) {
            Some(SegmentStatus::Pending)
        } else if chars_eq(&v, &str_chars("active")) {
            Some(SegmentStatus::Active)
        } else if chars_eq(&v, &str_chars("completed")) {
            Some(SegmentStatus::Completed)
        } else if chars_eq(&v, &str_chars("failed")) {
            Some(SegmentStatus::Failed)
        } else {
            None
        }
    }
}

/// Reading back the persisted name of a segment status yields the
/// status.
pub proof fn law_segment_status_roundtrip(s: SegmentStatus)
    ensures
        spec_segment_status_from(spec_segment_status_str(s)) == Some(s),
{
    reveal_strlit("pending");
    reveal_strlit("active");
    reveal_strlit("completed");
    reveal_strlit("failed");
    match s {
        SegmentStatus::Pending => {
        },
        SegmentStatus::Active => {
            assert("active"@[0] != "pending"@[0]);
        },
        SegmentStatus::Completed => {
            assert("completed"@[0] != "pending"@[0]);
            assert("completed"@[0] != "active"@[0]);
        },
        SegmentStatus::Failed => {
            assert("failed"@[0] != "pending"@[0]);
            assert("failed"@[0] != "active"@[0]);
            assert("failed"@[0] != "completed"@[0]);
        },
    }
}

/// A contiguous inclusive byte range of the target resource, downloaded
/// independently of its siblings.
#[derive(Debug, Clone, Copy, PartialEq, Eq, Structural)]
pub struct Segment {
    pub index: u32,
    pub range_start: u64,
    pub range_end: u64,
    pub downloaded_bytes: u64,
    pub status: SegmentStatus,
}

impl Segment {
    /// Number of bytes the inclusive range covers.
    pub open spec fn spec_size(self) -> int {
        if self.range_end >= self.range_start {
            self.range_end - self.range_start + 1
        } else {
            0
        }
    }

    pub fn new(index: u32, range_start: u64, range_end: u64) -> (s: Segment)
        requires
            range_end < u64::MAX,
        ensures
            s == (Segment {
                index,
                range_start,
                range_end,
                downloaded_bytes: 0,
                status: SegmentStatus::Pending,
            }),
    {
        Segment { index, range_start, range_end, downloaded_bytes: 0, status: SegmentStatus::Pending }
    }

    pub fn size(&self) -> (n: u64)
        requires
            self.range_end < u64::MAX,
        ensures
            n == self.spec_size(),
    {
        if self.range_end >= self.range_start {
            self.range_end - self.range_start + 1
        } else {
            0
        }
    }
}

/// Connection count suggested by the resource size alone: one connection for
/// small files, up to sixteen for very large ones.
pub open spec fn spec_smart_concurrency(total_bytes: u64) -> u32 {
    if total_bytes <= 20971520 {
        1u32
    } else if total_bytes <= 209715200 {
        4u32
    } else if total_bytes <= 2147483648 {
        8u32
    } else {
        16u32
    }
}

pub fn calculate_smart_concurrency(total_bytes: u64) -> (n: u32)
    ensures
        n == spec_smart_concurrency(total_bytes),
{
    if total_bytes <= 20971520 {
        1
    } else if total_bytes <= 209715200 {
        4
    } else if total_bytes <= 2147483648 {
        8
    } else {
        16
    }
}

/// Number of segments the plan uses: the smart count clamped by the
/// configured maximum, further clamped so each segment holds at least
/// `min_segment_size` bytes, and never below one.
pub open spec fn spec_plan_count(total_bytes: u64, max_segments: u32, min_segment_size: u64) -> u64 {
    let smart = spec_smart_concurrency(total_bytes) as u64;
    let clamped = if smart > max_segments as u64 {
        max_segments as u64
    } else {
        smart
    };
    let by_size = if min_segment_size > 0 && total_bytes as u64 / min_segment_size < clamped {
        total_bytes as u64 / min_segment_size
    } else {
        clamped
    };
    if by_size < 1 {
        1u64
    } else {
        by_size
    }
}

/// Size of segment `i` in a plan of `count` segments over `total` bytes:
/// bytes are distributed evenly and the first `total % count` segments take
/// one extra byte.
pub open spec fn spec_plan_size(total: u64, count: u64, i: int) -> int {
    let base = total as int / count as int;
    if i < total as int % count as int {
        base + 1
    } else {
        base
    }
}

/// First byte of segment `i` in a plan of `count` segments over `total`
/// bytes. At `i == count` this is `total`, one past the final byte, so
/// consecutive segments are contiguous by construction.
pub open spec fn spec_plan_start(total: u64, count: u64, i: int) -> int {
    let base = total as int / count as int;
    let rem = total as int % count as int;
    i * base + (if i < rem {
        i
    } else {
        rem
    })
}

/// Ranges standing exactly at their closed-form positions: contiguous,
/// non-overlapping, and covering `[0, total - 1]`, with indices in order.
pub open spec fn spec_ranges_wf(segments: Seq<Segment>, total: u64) -> bool {
    &&& segments.len() >= 1
    &&& segments[0].range_start == 0
    &&& segments[segments.len() - 1].range_end == total as int - 1
    &&& forall|i: int|
        0 <= i < segments.len() ==> {
            let s = #[trigger] segments[i];
            &&& s.index == i
            &&& s.range_start == spec_plan_start(total, segments.len() as u64, i)
            &&& s.range_end == spec_plan_start(total, segments.len() as u64, i + 1) - 1
            &&& s.range_start <= s.range_end
        }
}

/// A well-formed fresh plan over `total > 0` bytes: well-formed ranges with
/// nothing downloaded yet.
pub open spec fn spec_plan_wf(segments: Seq<Segment>, total: u64) -> bool {
    &&& spec_ranges_wf(segments, total)
    &&& forall|i: int|
        0 <= i < segments.len() ==> {
            let s = #[trigger] segments[i];
            &&& s.downloaded_bytes == 0
            &&& s.status == SegmentStatus::Pending
        }
}

/// Plan the byte-range segments of a download.
///
/// When the total size is unknown the plan is a single placeholder segment
/// covering `[0, 0]`. Otherwise the segment count follows
/// `spec_plan_count`, the ranges partition `[0, total_bytes - 1]`, and each
/// segment holds at least `min_segment_size` bytes whenever the whole
/// resource does.
pub fn build_segments(total_bytes: u64, max_segments: u32, min_segment_size: u64) -> (segments: Vec<
    Segment,
>)
    requires
        total_bytes < u64::MAX,
    ensures
        total_bytes == 0 ==> segments@ =~= seq![
            (Segment {
                index: 0,
                range_start: 0,
                range_end: 0,
                downloaded_bytes: 0,
                status: SegmentStatus::Pending,
            }),
        ],
        total_bytes > 0 ==> {
            &&& segments@.len() == spec_plan_count(total_bytes, max_segments, min_segment_size)
            &&& spec_plan_wf(segments@, total_bytes)
            &&& forall|i: int|
                0 <= i < segments@.len() ==> (#[trigger] segments@[i]).range_end < total_bytes
            &&& forall|i: int|
                0 <= i < segments@.len() ==> (#[trigger] segments@[i]).spec_size()
                    == spec_plan_size(total_bytes, segments@.len() as u64, i)
            &&& (min_segment_size > 0 && total_bytes >= min_segment_size) ==> forall|i: int|
                0 <= i < segments@.len() ==> (#[trigger] segments@[i]).spec_size()
                    >= min_segment_size
        },
{
    if total_bytes == 0 {
        let mut segments: Vec<Segment> = Vec::new();
        segments.push(Segment::new(0, 0, 0));
        return segments;
    }

    let segment_count = plan_count(total_bytes, max_segments, min_segment_size);
    proof {
        lemma_plan_division(total_bytes, segment_count, min_segment_size);
    }
    let segments = fill_plan(total_bytes, segment_count);
    proof {
        if min_segment_size > 0 && total_bytes >= min_segment_size {
            assert forall|i: int| 0 <= i < segments@.len() implies (#[trigger] segments@[i]).spec_size()
                >= min_segment_size by {
                assert(segments@[i].spec_size() == spec_plan_size(total_bytes, segment_count, i));
            }
        }
    }
    segments
}

/// Build the even split of `total_bytes > 0` into exactly `count` contiguous
/// ranges, the first `total % count` of them one byte longer.
fn fill_plan(total_bytes: u64, segment_count: u64) -> (segments: Vec<Segment>)
    requires
        0 < segment_count <= total_bytes < u64::MAX,
        segment_count <= 16,
    ensures
        segments@.len() == segment_count,
        spec_plan_wf(segments@, total_bytes),
        forall|i: int|
            0 <= i < segments@.len() ==> (#[trigger] segments@[i]).range_end < total_bytes,
        forall|i: int|
            0 <= i < segments@.len() ==> (#[trigger] segments@[i]).spec_size() == spec_plan_size(
                total_bytes,
                segment_count,
                i,
            ),
{
    let base = total_bytes / segment_count;
    let remainder = total_bytes % segment_count;
    proof {
        lemma_plan_division(total_bytes, segment_count, 0);
    }

    let mut segments: Vec<Segment> = Vec::new();
    let mut start: u64 = 0;
    let mut index: u64 = 0;
    while index < segment_count
        invariant
            segment_count <= 16,
            0 < segment_count <= total_bytes < u64::MAX,
            base == total_bytes / segment_count,
            remainder == total_bytes % segment_count,
            total_bytes as int == segment_count as int * base as int + remainder as int,
            base >= 1,
            remainder < segment_count,
            0 <= index <= segment_count,
            segments@.len() == index,
            start as int == spec_plan_start(total_bytes, segment_count, index as int),
            forall|i: int|
                0 <= i < index ==> (#[trigger] segments@[i]).range_end < total_bytes,
            forall|i: int|
                0 <= i < index ==> {
                    let s = #[trigger] segments@[i];
                    &&& s.index == i
                    &&& s.downloaded_bytes == 0
                    &&& s.status == SegmentStatus::Pending
                    &&& s.range_start == spec_plan_start(total_bytes, segment_count, i)
                    &&& s.range_end == spec_plan_start(total_bytes, segment_count, i + 1) - 1
                    &&& s.range_start <= s.range_end
                    &&& s.spec_size() == spec_plan_size(total_bytes, segment_count, i)
                },
            start <= total_bytes,
        decreases segment_count - index,
    {
        proof {
            assert((index + 1) as int * base as int == index as int * base as int + base as int)
                by (nonlinear_arith);
            assert((index + 1) as int * base as int + remainder as int <= segment_count as int
                * base as int + remainder as int) by (nonlinear_arith)
                requires
                    index as int + 1 <= segment_count as int,
                    base >= 1,
            ;
        }
        let mut end: u64 = if index == segment_count - 1 {
            total_bytes - 1
        } else {
            start + base - 1
        };
        if index < remainder {
            end = end + 1;
        }
        proof {
            if index == segment_count - 1 {
                assert(index >= remainder);
                assert(segment_count as int * base as int == index as int * base as int + base as int)
                    by (nonlinear_arith)
                    requires index as int + 1 == segment_count as int;
            }
            assert(end as int == spec_plan_start(total_bytes, segment_count, index as int + 1) - 1);
        }
        segments.push(Segment { index: index as u32, range_start: start, range_end: end, downloaded_bytes: 0, status: SegmentStatus::Pending });
        start = end + 1;
        index = index + 1;
    }
    assert(spec_plan_start(total_bytes, segment_count, segment_count as int) == total_bytes as int);
    assert(segments@[segment_count as int - 1].range_end == total_bytes as int - 1);
    segments
}

/// The clamp chain behind `spec_plan_count`, with the bounds its callers
/// rely on.
fn plan_count(total_bytes: u64, max_segments: u32, min_segment_size: u64) -> (c: u64)
    requires
        0 < total_bytes < u64::MAX,
    ensures
        c == spec_plan_count(total_bytes, max_segments, min_segment_size),
        1 <= c <= 16,
        c <= total_bytes,
        min_segment_size > 0 && total_bytes >= min_segment_size ==> c as int
            * min_segment_size as int <= total_bytes as int,
{
    let smart_count = calculate_smart_concurrency(total_bytes);

    let mut target_count: u64 = if smart_count as u64 > max_segments as u64 {
        max_segments as u64
    } else {
        smart_count as u64
    };

    if min_segment_size > 0 {
        let max_possible_by_size = total_bytes / min_segment_size;
        if max_possible_by_size < target_count {
            target_count = max_possible_by_size;
        }
    }

    if target_count < 1 {
        target_count = 1;
    }

    proof {
        if min_segment_size > 0 {
            assert(total_bytes / min_segment_size <= total_bytes) by (nonlinear_arith)
                requires
                    min_segment_size > 0,
            ;
            if total_bytes >= min_segment_size {
                assert(total_bytes / min_segment_size >= 1) by (nonlinear_arith)
                    requires
                        min_segment_size > 0,
                        total_bytes >= min_segment_size,
                ;
                assert(target_count as int * min_segment_size as int <= total_bytes as int)
                    by (nonlinear_arith)
                    requires
                        min_segment_size > 0,
                        target_count as int <= total_bytes as int / min_segment_size as int,
                ;
            }
        }
    }
    target_count
}

/// Facts about the even split of `total` bytes into `count` ranges.
proof fn lemma_plan_division(total: u64, count: u64, min_segment_size: u64)
    requires
        0 < count <= total,
        min_segment_size > 0 && total >= min_segment_size ==> count as int
            * min_segment_size as int <= total as int,
    ensures
        total as int == count as int * (total as int / count as int) + total as int % count as int,
        total as int / count as int >= 1,
        (total as int % count as int) < count as int,
        min_segment_size > 0 && total >= min_segment_size ==> total as int / count as int
            >= min_segment_size,
{
    assert(total as int == count as int * (total as int / count as int) + total as int
        % count as int) by (nonlinear_arith)
        requires
            count > 0,
    ;
    assert(total as int / count as int >= 1) by (nonlinear_arith)
        requires
            0 < count <= total,
    ;
    assert((total as int % count as int) < count as int) by (nonlinear_arith)
        requires
            count > 0,
    ;
    if min_segment_size > 0 && total >= min_segment_size {
        assert(total as int / count as int >= min_segment_size) by (nonlinear_arith)
            requires
                count > 0,
                count as int * min_segment_size as int <= total as int,
        ;
    }
}

} // verus!
