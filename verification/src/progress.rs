//! Progress accounting for an in-flight task: the per-segment byte
//! counters, their aggregate, and the flush / status-check watermarks.

use vstd::prelude::*;
use crate::segment::{Segment, SegmentStatus, spec_ranges_wf, spec_plan_start};

verus! {

/// Sum of the per-segment downloaded byte counters.
pub open spec fn spec_sum_downloaded(s: Seq<Segment>) -> int
    decreases s.len(),
{
    if s.len() == 0 {
        0
    } else {
        spec_sum_downloaded(s.drop_last()) + s.last().downloaded_bytes
    }
}

/// Sum of the segment sizes.
pub open spec fn spec_sum_size(s: Seq<Segment>) -> int
    decreases s.len(),
{
    if s.len() == 0 {
        0
    } else {
        spec_sum_size(s.drop_last()) + s.last().spec_size()
    }
}

/// Each summand is at most the whole sum.
proof fn lemma_sum_at_least(s: Seq<Segment>, i: int)
    requires
        0 <= i < s.len(),
    ensures
        spec_sum_downloaded(s) >= s[i].downloaded_bytes,
    decreases s.len(),
{
    lemma_sum_nonneg(s.drop_last());
    if i < s.len() - 1 {
        assert(s.drop_last()[i] == s[i]);
        lemma_sum_at_least(s.drop_last(), i);
        assert(s.last().downloaded_bytes >= 0);
    }
}

proof fn lemma_sum_nonneg(s: Seq<Segment>)
    ensures
        spec_sum_downloaded(s) >= 0,
    decreases s.len(),
{
    if s.len() > 0 {
        lemma_sum_nonneg(s.drop_last());
    }
}

/// Raising one counter raises the sum by the same amount.
proof fn lemma_sum_update(s: Seq<Segment>, i: int, seg: Segment)
    requires
        0 <= i < s.len(),
    ensures
        spec_sum_downloaded(s.update(i, seg)) == spec_sum_downloaded(s) + seg.downloaded_bytes
            - s[i].downloaded_bytes,
    decreases s.len(),
{
    let su = s.update(i, seg);
    if i == s.len() - 1 {
        assert(su.drop_last() =~= s.drop_last());
        assert(su.last() == seg);
    } else {
        assert(su.drop_last() =~= s.drop_last().update(i, seg));
        assert(s.drop_last()[i] == s[i]);
        lemma_sum_update(s.drop_last(), i, seg);
        assert(su.last() == s.last());
    }
}

/// The aggregate of downloaded bytes, over well-formed ranges, never
/// exceeds the total: the segment sizes partition the whole resource, and
/// each counter stays within its segment's size.
pub proof fn law_progress_within_total(s: Seq<Segment>, total: u64)
    requires
        spec_ranges_wf(s, total),
        total > 0,
        forall|i: int|
            0 <= i < s.len() ==> (#[trigger] s[i]).downloaded_bytes <= s[i].spec_size(),
    ensures
        spec_sum_downloaded(s) <= total,
{
    lemma_sum_le_sizes(s);
    lemma_ranges_sizes_sum(s, total, s.len() as int);
    assert(s.subrange(0, s.len() as int) =~= s);
}

/// With each counter within its size, the aggregate is within the sizes'
/// sum.
proof fn lemma_sum_le_sizes(s: Seq<Segment>)
    requires
        forall|i: int|
            0 <= i < s.len() ==> (#[trigger] s[i]).downloaded_bytes <= s[i].spec_size(),
    ensures
        spec_sum_downloaded(s) <= spec_sum_size(s),
    decreases s.len(),
{
    if s.len() > 0 {
        assert(forall|i: int|
            0 <= i < s.len() - 1 ==> (#[trigger] s.drop_last()[i]) == s[i]);
        lemma_sum_le_sizes(s.drop_last());
        assert(s.last().downloaded_bytes <= s.last().spec_size());
    }
}

/// Over well-formed ranges the sizes of the first `k` segments telescope
/// to the `k`-th closed-form position.
proof fn lemma_ranges_sizes_sum(s: Seq<Segment>, total: u64, k: int)
    requires
        spec_ranges_wf(s, total),
        total > 0,
        0 <= k <= s.len(),
    ensures
        spec_sum_size(s.subrange(0, k)) == spec_plan_start(total, s.len() as u64, k),
        k == s.len() ==> spec_sum_size(s.subrange(0, k)) == total,
    decreases k,
{
    if k == 0 {
        assert(s.subrange(0, 0) =~= Seq::<Segment>::empty());
    } else {
        lemma_ranges_sizes_sum(s, total, k - 1);
        assert(s.subrange(0, k).drop_last() =~= s.subrange(0, k - 1));
        assert(s.subrange(0, k).last() == s[k - 1]);
        assert(s[k - 1].spec_size() == spec_plan_start(total, s.len() as u64, k)
            - spec_plan_start(total, s.len() as u64, k - 1));
        if k == s.len() {
            assert(s[k - 1].range_end == total as int - 1);
            assert(spec_plan_start(total, s.len() as u64, k) - 1 == total as int - 1);
        }
    }
}

/// Well-formed ranges partition the resource: the segment sizes sum to
/// exactly the total.
pub proof fn law_plan_sizes_sum(s: Seq<Segment>, total: u64)
    requires
        spec_ranges_wf(s, total),
        total > 0,
    ensures
        spec_sum_size(s) == total,
{
    lemma_ranges_sizes_sum(s, total, s.len() as int);
    assert(s.subrange(0, s.len() as int) =~= s);
}

/// When every segment's counter equals its size, the aggregate equals
/// the total: a task completes only with every byte of a known total
/// accounted for.
pub proof fn law_completed_covers_total(s: Seq<Segment>, total: u64)
    requires
        spec_ranges_wf(s, total),
        total > 0,
        forall|i: int|
            0 <= i < s.len() ==> (#[trigger] s[i]).downloaded_bytes == s[i].spec_size(),
    ensures
        spec_sum_downloaded(s) == total,
{
    lemma_sum_eq_sizes(s);
    lemma_ranges_sizes_sum(s, total, s.len() as int);
    assert(s.subrange(0, s.len() as int) =~= s);
}

proof fn lemma_sum_eq_sizes(s: Seq<Segment>)
    requires
        forall|i: int|
            0 <= i < s.len() ==> (#[trigger] s[i]).downloaded_bytes == s[i].spec_size(),
    ensures
        spec_sum_downloaded(s) == spec_sum_size(s),
    decreases s.len(),
{
    if s.len() > 0 {
        assert(forall|i: int|
            0 <= i < s.len() - 1 ==> (#[trigger] s.drop_last()[i]) == s[i]);
        lemma_sum_eq_sizes(s.drop_last());
        assert(s.last().downloaded_bytes == s.last().spec_size());
    }
}

/// What a chunk may credit to segment `index`: no more than the chunk, no
/// more than the room left in a sized segment, and never past the
/// aggregate's capacity.
pub open spec fn spec_credit(seg: Segment, bytes: u64, sized: bool, downloaded: u64) -> int {
    let cap: int = if sized {
        if seg.downloaded_bytes <= seg.spec_size() {
            seg.spec_size() - seg.downloaded_bytes
        } else {
            0
        }
    } else {
        u64::MAX - seg.downloaded_bytes
    };
    let c: int = if bytes <= cap {
        bytes as int
    } else {
        cap
    };
    if c <= u64::MAX - downloaded {
        c
    } else {
        u64::MAX - downloaded
    }
}

/// Progress accounting for one in-flight task.
///
/// Its invariant is the aggregate law: the aggregate counter always equals
/// the sum of the per-segment counters.
#[derive(Debug)]
pub struct ProgressTracker {
    pub segments: Vec<Segment>,
    pub downloaded: u64,
    pub last_flush: u64,
    pub last_status_check: u64,
    pub flush_bytes: u64,
    pub status_check_bytes: u64,
}

impl ProgressTracker {
    /// The aggregate equals the sum of the per-segment counters.
    pub open spec fn wf(&self) -> bool {
        self.downloaded as int == spec_sum_downloaded(self.segments@)
    }

    /// Track the given segments, whose counters sum to `downloaded`.
    pub fn new(
        segments: Vec<Segment>,
        downloaded: u64,
        flush_bytes: u64,
        status_check_bytes: u64,
    ) -> (t: ProgressTracker)
        requires
            downloaded as int == spec_sum_downloaded(segments@),
        ensures
            t.wf(),
            t.segments@ == segments@,
            t.downloaded == downloaded,
            t.last_flush == downloaded,
            t.last_status_check == downloaded,
            t.flush_bytes == flush_bytes,
            t.status_check_bytes == status_check_bytes,
    {
        ProgressTracker {
            segments,
            downloaded,
            last_flush: downloaded,
            last_status_check: downloaded,
            flush_bytes,
            status_check_bytes,
        }
    }

    /// Credit a chunk of `bytes` to segment `index` and to the aggregate,
    /// clamping to the segment's size when the total is known (`sized`).
    /// Both counters move by exactly the credited amount, keeping the
    /// aggregate law.
    pub fn add_bytes(&mut self, index: usize, bytes: u64, sized: bool) -> (credited: u64)
        requires
            old(self).wf(),
            index < old(self).segments@.len(),
            old(self).segments@[index as int].range_end < u64::MAX,
        ensures
            final(self).wf(),
            credited as int == spec_credit(
                old(self).segments@[index as int],
                bytes,
                sized,
                old(self).downloaded,
            ),
            final(self).segments@ == old(self).segments@.update(
                index as int,
                (Segment {
                    downloaded_bytes: (old(self).segments@[index as int].downloaded_bytes
                        + credited) as u64,
                    ..old(self).segments@[index as int]
                }),
            ),
            final(self).downloaded == old(self).downloaded + credited,
            final(self).last_flush == old(self).last_flush,
            final(self).last_status_check == old(self).last_status_check,
            final(self).flush_bytes == old(self).flush_bytes,
            final(self).status_check_bytes == old(self).status_check_bytes,
    {
        proof {
            lemma_sum_at_least(self.segments@, index as int);
            lemma_sum_nonneg(self.segments@);
        }
        let seg = self.segments[index];
        let size: u64 = if seg.range_end >= seg.range_start {
            seg.range_end - seg.range_start + 1
        } else {
            0
        };
        let cap: u64 = if sized {
            if seg.downloaded_bytes <= size {
                size - seg.downloaded_bytes
            } else {
                0
            }
        } else {
            u64::MAX - seg.downloaded_bytes
        };
        let c: u64 = if bytes <= cap {
            bytes
        } else {
            cap
        };
        let credited: u64 = if c <= u64::MAX - self.downloaded {
            c
        } else {
            u64::MAX - self.downloaded
        };
        let updated = Segment {
            index: seg.index,
            range_start: seg.range_start,
            range_end: seg.range_end,
            downloaded_bytes: seg.downloaded_bytes + credited,
            status: seg.status,
        };
        self.segments.set(index, updated);
        proof {
            lemma_sum_update(old(self).segments@, index as int, updated);
        }
        self.downloaded = self.downloaded + credited;
        credited
    }

    /// Mark segment `index` with a new status.
    pub fn set_status(&mut self, index: usize, status: SegmentStatus)
        requires
            old(self).wf(),
            index < old(self).segments@.len(),
        ensures
            final(self).wf(),
            final(self).segments@ == old(self).segments@.update(
                index as int,
                (Segment { status, ..old(self).segments@[index as int] }),
            ),
            final(self).downloaded == old(self).downloaded,
            final(self).last_flush == old(self).last_flush,
            final(self).last_status_check == old(self).last_status_check,
            final(self).flush_bytes == old(self).flush_bytes,
            final(self).status_check_bytes == old(self).status_check_bytes,
    {
        let seg = self.segments[index];
        let updated = Segment {
            index: seg.index,
            range_start: seg.range_start,
            range_end: seg.range_end,
            downloaded_bytes: seg.downloaded_bytes,
            status,
        };
        self.segments.set(index, updated);
        proof {
            lemma_sum_update(old(self).segments@, index as int, updated);
        }
    }

    /// Has the aggregate grown by a flush threshold since the last flush?
    /// If so, move the watermark: the caller persists exactly once.
    pub fn take_flush_due(&mut self) -> (due: bool)
        ensures
            due == (old(self).downloaded - old(self).last_flush >= old(self).flush_bytes),
            *final(self) == if due {
                ProgressTracker { last_flush: old(self).downloaded, ..*old(self) }
            } else {
                *old(self)
            },
    {
        if self.downloaded >= self.last_flush && self.downloaded - self.last_flush
            >= self.flush_bytes {
            self.last_flush = self.downloaded;
            true
        } else {
            false
        }
    }

    /// Has the aggregate grown by a status-check threshold since the last
    /// check? If so, move the watermark: the caller re-reads the persisted
    /// status exactly once.
    pub fn take_status_check_due(&mut self) -> (due: bool)
        ensures
            due == (old(self).downloaded - old(self).last_status_check >= old(
                self,
            ).status_check_bytes),
            *final(self) == if due {
                ProgressTracker { last_status_check: old(self).downloaded, ..*old(self) }
            } else {
                *old(self)
            },
    {
        if self.downloaded >= self.last_status_check && self.downloaded - self.last_status_check
            >= self.status_check_bytes {
            self.last_status_check = self.downloaded;
            true
        } else {
            false
        }
    }
}

/// The sum of the per-segment counters, as the tracker keeps it.
pub fn sum_downloaded(segments: &Vec<Segment>) -> (n: u64)
    ensures
        n as int == if spec_sum_downloaded(segments@) <= u64::MAX as int {
            spec_sum_downloaded(segments@)
        } else {
            u64::MAX as int
        },
{
    let mut n: u64 = 0;
    let mut i: usize = 0;
    proof {
        assert(segments@.subrange(0, 0) =~= Seq::<Segment>::empty());
    }
    let mut saturated = false;
    while i < segments.len()
        invariant
            0 <= i <= segments@.len(),
            !saturated ==> n as int == spec_sum_downloaded(segments@.subrange(0, i as int)),
            saturated ==> n == u64::MAX && spec_sum_downloaded(segments@.subrange(0, i as int))
                > u64::MAX as int,
        decreases segments@.len() - i,
    {
        proof {
            assert(segments@.subrange(0, i + 1).drop_last() =~= segments@.subrange(0, i as int));
            assert(segments@.subrange(0, i + 1).last() == segments@[i as int]);
        }
        let d = segments[i].downloaded_bytes;
        if !saturated && u64::MAX - n >= d {
            n = n + d;
        } else {
            proof {
                lemma_sum_nonneg(segments@.subrange(0, i as int));
            }
            n = u64::MAX;
            saturated = true;
        }
        i = i + 1;
    }
    proof {
        assert(segments@.subrange(0, segments@.len() as int) =~= segments@);
    }
    n
}

} // verus!
