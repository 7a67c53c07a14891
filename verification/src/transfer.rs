//! The decisions of a running download, factored out of the worker
//! threads: candidate probing, segment planning and reconciliation,
//! per-segment request shaping, response validation, and finalization.

use vstd::prelude::*;
use vstd::string::StringExecFns;
use vstd::string::StrSliceExecFns;
use crate::error::CoreError;
use crate::net::DownloadResponse;
use crate::resolver::{
    Provider, spec_detect_provider, spec_is_html_content_type, detect_provider,
    is_html_content_type, spec_add_unique, spec_dedup,
};
use crate::segment::{Segment, SegmentStatus, build_segments, spec_plan_count, spec_plan_wf};
use crate::stop::StopSignal;
use crate::strutil::{str_chars, string_from_chars, push_range, u64_to_chars};
use crate::task::TaskStatus;

verus! {

/// What the engine does with one HEAD probe of a candidate URL.
#[derive(Debug, Clone, Copy, PartialEq, Eq, Structural)]
pub enum ProbeAction {
    /// A non-HTML success: download from this URL.
    AcceptCandidate,
    /// An HTML success from a known or unknown provider: scrape the page.
    ScrapePage,
    /// A Mega landing page: the provider is intentionally unsupported.
    RejectUnsupported,
    /// A failure status: try the next candidate.
    SkipCandidate,
}

/// The probe decision: a 2xx/3xx non-HTML response is accepted; a
/// 2xx/3xx HTML page is scraped, unless the provider is Mega, which is
/// rejected; everything else is skipped.
pub open spec fn spec_probe_decision(url: Seq<char>, status_code: u16, content_type: Option<Seq<char>>) -> ProbeAction {
    if 200 <= status_code < 400 {
        if spec_is_html_content_type(content_type) {
            if spec_detect_provider(url) == Provider::Mega {
                ProbeAction::RejectUnsupported
            } else {
                ProbeAction::ScrapePage
            }
        } else {
            ProbeAction::AcceptCandidate
        }
    } else {
        ProbeAction::SkipCandidate
    }
}

/// Decide what to do with the HEAD response of one candidate URL.
pub fn probe_decision(url: &str, resp: &DownloadResponse) -> (r: ProbeAction)
    ensures
        r == spec_probe_decision(url@, resp.status_code, match resp.content_type {
            Some(ref ct) => Some(ct@),
            None => None,
        }),
{
    if resp.status_code >= 200 && resp.status_code < 400 {
        let ct = match &resp.content_type {
            Some(ct) => Some(ct.as_str()),
            None => None,
        };
        if is_html_content_type(ct) {
            let provider = detect_provider(url);
            let is_mega = match provider {
                Provider::Mega => true,
                _ => false,
            };
            if is_mega {
                ProbeAction::RejectUnsupported
            } else {
                ProbeAction::ScrapePage
            }
        } else {
            ProbeAction::AcceptCandidate
        }
    } else {
        ProbeAction::SkipCandidate
    }
}

/// The ordered deduplicated URL list a segment worker walks: the selected
/// URL first, then the scraped candidates, then the original candidates.
pub open spec fn spec_merge_urls(
    selected: Seq<char>,
    resolved: Seq<Seq<char>>,
    candidates: Seq<Seq<char>>,
) -> Seq<Seq<char>> {
    spec_dedup(
        candidates,
        0,
        spec_dedup(resolved, 0, spec_add_unique(Seq::<Seq<char>>::empty(), selected)),
    )
}

pub fn merge_download_urls(selected: String, resolved: &Vec<String>, candidates: &Vec<String>) -> (r:
    Vec<String>)
    ensures
        r.deep_view() == spec_merge_urls(selected@, resolved.deep_view(), candidates.deep_view()),
{
    let mut out: Vec<String> = Vec::new();
    proof {
        assert(out.deep_view() =~= Seq::<Seq<char>>::empty());
    }
    crate::resolver::push_unique_url(&mut out, selected);
    let mut i: usize = 0;
    while i < resolved.len()
        invariant
            0 <= i <= resolved@.len(),
            spec_dedup(resolved.deep_view(), 0, spec_add_unique(
                Seq::<Seq<char>>::empty(),
                selected@,
            )) == spec_dedup(resolved.deep_view(), i as int, out.deep_view()),
        decreases resolved@.len() - i,
    {
        proof {
            assert(resolved.deep_view()[i as int] == resolved@[i as int]@);
        }
        crate::resolver::push_unique_url(&mut out, resolved[i].clone());
        i = i + 1;
    }
    let ghost mid = out.deep_view();
    let mut j: usize = 0;
    while j < candidates.len()
        invariant
            0 <= j <= candidates@.len(),
            spec_dedup(candidates.deep_view(), 0, mid) == spec_dedup(
                candidates.deep_view(),
                j as int,
                out.deep_view(),
            ),
        decreases candidates@.len() - j,
    {
        proof {
            assert(candidates.deep_view()[j as int] == candidates@[j as int]@);
        }
        crate::resolver::push_unique_url(&mut out, candidates[j].clone());
        j = j + 1;
    }
    out
}

/// The largest `range_end` among persisted segments.
pub open spec fn spec_max_end(s: Seq<Segment>) -> int
    decreases s.len(),
{
    if s.len() == 0 {
        -1
    } else {
        let rest = spec_max_end(s.drop_last());
        if s.last().range_end > rest {
            s.last().range_end as int
        } else {
            rest
        }
    }
}

/// Persisted segments are rebuilt when none exist, when range mode turned
/// off but several remain, or when a known total is no longer covered.
pub open spec fn spec_needs_rebuild(persisted: Seq<Segment>, total_bytes: u64, use_ranges: bool) -> bool {
    ||| persisted.len() == 0
    ||| (!use_ranges && persisted.len() > 1)
    ||| (total_bytes > 0 && spec_max_end(persisted) != total_bytes - 1)
}

/// One segment after reconciliation: an `Active` leftover returns to
/// `Pending`, and a segment whose counter reached its size is complete.
pub open spec fn spec_reconcile_segment(seg: Segment, total_bytes: u64) -> Segment {
    let s1 = if seg.status == SegmentStatus::Active {
        Segment { status: SegmentStatus::Pending, ..seg }
    } else {
        seg
    };
    if total_bytes > 0 && s1.downloaded_bytes >= s1.spec_size() {
        Segment {
            downloaded_bytes: s1.spec_size() as u64,
            status: SegmentStatus::Completed,
            ..s1
        }
    } else {
        s1
    }
}

/// The reconciled plan for a task: rebuilt from scratch when the
/// persisted segments no longer fit, else the persisted segments
/// themselves, each reconciled.
pub open spec fn spec_plan(
    persisted: Seq<Segment>,
    total_bytes: u64,
    use_ranges: bool,
    max_segments: u32,
    min_segment_size: u64,
) -> Seq<Segment> {
    let base: Seq<Segment> = if spec_needs_rebuild(persisted, total_bytes, use_ranges) {
        if use_ranges {
            Seq::empty()  // the fresh ranged build; its shape is pinned by `build_segments`
        } else {
            if total_bytes > 0 {
                seq![
                    (Segment {
                        index: 0,
                        range_start: 0,
                        range_end: (total_bytes - 1) as u64,
                        downloaded_bytes: 0,
                        status: SegmentStatus::Pending,
                    }),
                ]
            } else {
                seq![
                    (Segment {
                        index: 0,
                        range_start: 0,
                        range_end: 0,
                        downloaded_bytes: 0,
                        status: SegmentStatus::Pending,
                    }),
                ]
            }
        }
    } else {
        persisted
    };
    base.map_values(|seg: Segment| spec_reconcile_segment(seg, total_bytes))
}

/// Reconcile the persisted segments with what the probe reported, or
/// rebuild the plan. Exactly one of three shapes comes back: the fresh
/// ranged plan of `build_segments`, a single whole-file segment, or the
/// persisted segments; in every case leftovers are reset and finished
/// segments are marked complete.
pub fn plan_segments(
    persisted: Vec<Segment>,
    total_bytes: u64,
    use_ranges: bool,
    max_segments: u32,
    min_segment_size: u64,
) -> (r: Vec<Segment>)
    requires
        total_bytes < u64::MAX,
        forall|i: int| 0 <= i < persisted@.len() ==> (#[trigger] persisted@[i]).range_end < u64::MAX,
    ensures
        spec_needs_rebuild(persisted@, total_bytes, use_ranges) && use_ranges ==> {
            &&& r@.len() == spec_plan_count(total_bytes, max_segments, min_segment_size)
            &&& total_bytes > 0 ==> spec_plan_wf(r@, total_bytes)
        },
        !(spec_needs_rebuild(persisted@, total_bytes, use_ranges) && use_ranges) ==> r@
            == spec_plan(persisted@, total_bytes, use_ranges, max_segments, min_segment_size),
        forall|i: int|
            0 <= i < r@.len() ==> (#[trigger] r@[i]).status != SegmentStatus::Active,
        forall|i: int|
            0 <= i < r@.len() ==> (total_bytes > 0 ==> (#[trigger] r@[i]).downloaded_bytes
                <= r@[i].spec_size()),
{
    let needs_rebuild = needs_rebuild_check(&persisted, total_bytes, use_ranges);
    let base: Vec<Segment> = if needs_rebuild {
        if use_ranges {
            build_segments(total_bytes, max_segments, min_segment_size)
        } else {
            let mut v: Vec<Segment> = Vec::new();
            if total_bytes > 0 {
                v.push(Segment::new(0, 0, total_bytes - 1));
            } else {
                v.push(Segment::new(0, 0, 0));
            }
            v
        }
    } else {
        persisted
    };
    proof {
        assert forall|k: int| 0 <= k < base@.len() implies (#[trigger] base@[k]).range_end
            < u64::MAX by {
            if needs_rebuild && use_ranges && total_bytes == 0 {
                assert(base@[k].range_end == 0);
            }
        }
    }
    let mut out: Vec<Segment> = Vec::new();
    let mut i: usize = 0;
    while i < base.len()
        invariant
            0 <= i <= base@.len(),
            forall|k: int|
                0 <= k < base@.len() ==> (#[trigger] base@[k]).range_end < u64::MAX,
            out@.len() == i,
            forall|k: int|
                0 <= k < i ==> #[trigger] out@[k] == spec_reconcile_segment(base@[k], total_bytes),
        decreases base@.len() - i,
    {
        let seg = base[i];
        let s1 = if match seg.status {
            SegmentStatus::Active => true,
            _ => false,
        } {
            Segment { index: seg.index, range_start: seg.range_start, range_end: seg.range_end, downloaded_bytes: seg.downloaded_bytes, status: SegmentStatus::Pending }
        } else {
            seg
        };
        let size = s1.size();
        let s2 = if total_bytes > 0 && s1.downloaded_bytes >= size {
            Segment { index: s1.index, range_start: s1.range_start, range_end: s1.range_end, downloaded_bytes: size, status: SegmentStatus::Completed }
        } else {
            s1
        };
        out.push(s2);
        i = i + 1;
    }
    proof {
        assert(out@ =~= base@.map_values(|seg: Segment| spec_reconcile_segment(
            seg,
            total_bytes,
        )));
        if !(spec_needs_rebuild(persisted@, total_bytes, use_ranges) && use_ranges) {
            if needs_rebuild {
                assert(base@ =~= spec_plan_base_unranged(total_bytes));
            }
        }
        assert forall|i2: int| 0 <= i2 < out@.len() implies (#[trigger] out@[i2]).status
            != SegmentStatus::Active && (total_bytes > 0 ==> out@[i2].downloaded_bytes
            <= out@[i2].spec_size()) by {
            assert(out@[i2] == spec_reconcile_segment(base@[i2], total_bytes));
        }
    }
    out
}

/// The single-segment base plan when ranges are off.
pub open spec fn spec_plan_base_unranged(total_bytes: u64) -> Seq<Segment> {
    if total_bytes > 0 {
        seq![
            (Segment {
                index: 0,
                range_start: 0,
                range_end: (total_bytes - 1) as u64,
                downloaded_bytes: 0,
                status: SegmentStatus::Pending,
            }),
        ]
    } else {
        seq![
            (Segment {
                index: 0,
                range_start: 0,
                range_end: 0,
                downloaded_bytes: 0,
                status: SegmentStatus::Pending,
            }),
        ]
    }
}

fn needs_rebuild_check(persisted: &Vec<Segment>, total_bytes: u64, use_ranges: bool) -> (r: bool)
    ensures
        r == spec_needs_rebuild(persisted@, total_bytes, use_ranges),
{
    if persisted.len() == 0 {
        return true;
    }
    if !use_ranges && persisted.len() > 1 {
        return true;
    }
    if total_bytes > 0 {
        let mut max_end: u64 = 0;
        let mut any = false;
        let mut i: usize = 0;
        proof {
            assert(spec_max_end(persisted@.subrange(0, 0)) == -1) by {
                assert(persisted@.subrange(0, 0) =~= Seq::<Segment>::empty());
            }
        }
        while i < persisted.len()
            invariant
                0 <= i <= persisted@.len(),
                any == (i > 0),
                any ==> max_end as int == spec_max_end(persisted@.subrange(0, i as int)),
                !any ==> spec_max_end(persisted@.subrange(0, i as int)) == -1,
            decreases persisted@.len() - i,
        {
            proof {
                assert(persisted@.subrange(0, i + 1).drop_last() =~= persisted@.subrange(
                    0,
                    i as int,
                ));
                assert(persisted@.subrange(0, i + 1).last() == persisted@[i as int]);
            }
            let e = persisted[i].range_end;
            if !any || e > max_end {
                max_end = e;
            }
            any = true;
            i = i + 1;
        }
        proof {
            assert(persisted@.subrange(0, persisted@.len() as int) =~= persisted@);
        }
        return max_end != total_bytes - 1;
    }
    false
}

/// After a pause and resume, a kept plan regresses no segment: when the
/// persisted segments are not rebuilt and each counter is within its
/// size, reconciliation returns every byte counter unchanged.
pub proof fn law_resume_no_regress(persisted: Seq<Segment>, total_bytes: u64)
    requires
        forall|i: int|
            0 <= i < persisted.len() ==> (#[trigger] persisted[i]).downloaded_bytes
                <= persisted[i].spec_size(),
    ensures
        forall|i: int|
            0 <= i < persisted.len() ==> (#[trigger] spec_reconcile_segment(
                persisted[i],
                total_bytes,
            )).downloaded_bytes == persisted[i].downloaded_bytes,
{
}

/// The byte range a segment worker requests: a ranged request resumes at
/// `range_start + downloaded`, a whole-body request starts at zero.
pub open spec fn spec_segment_request(seg: Segment, total_bytes: u64) -> (bool, int, int) {
    let use_ranges = total_bytes > 0 && seg.spec_size() > 0;
    if use_ranges {
        (true, seg.range_start + seg.downloaded_bytes, seg.range_end as int)
    } else {
        (false, 0, 0)
    }
}

/// Whether a ranged segment is already fully downloaded.
pub open spec fn spec_segment_done(seg: Segment, total_bytes: u64) -> bool {
    total_bytes > 0 && seg.spec_size() > 0 && seg.downloaded_bytes >= seg.spec_size()
}

/// Shape the next request for a segment: `None` when the segment is
/// already complete, else the ranged-or-whole request plan.
pub fn segment_request(seg: &Segment, total_bytes: u64) -> (r: Option<(bool, u64, u64)>)
    requires
        seg.range_end < u64::MAX,
    ensures
        match r {
            None => spec_segment_done(*seg, total_bytes),
            Some(p) => !spec_segment_done(*seg, total_bytes) && (p.0, p.1 as int, p.2 as int)
                == spec_segment_request(*seg, total_bytes),
        },
{
    let size = seg.size();
    let use_ranges = total_bytes > 0 && size > 0;
    if use_ranges && seg.downloaded_bytes >= size {
        return None;
    }
    if use_ranges {
        Some((true, seg.range_start + seg.downloaded_bytes, seg.range_end))
    } else {
        Some((false, 0, 0))
    }
}

/// A ranged request must come back as partial content (206); a whole-body
/// request must come back with a success status (2xx).
pub open spec fn spec_response_ok(ranged: bool, status: u16) -> bool {
    if ranged {
        status == 206
    } else {
        200 <= status < 300
    }
}

/// Validate the status of a segment response; the error carries the
/// status in its text.
pub fn response_status_ok(ranged: bool, status: u16) -> (r: Result<(), CoreError>)
    ensures
        r is Ok <==> spec_response_ok(ranged, status),
        r is Err ==> r->Err_0 is Network,
{
    if ranged && status != 206 {
        let mut msg = str_chars("range not supported (status ");
        let d = u64_to_chars(status as u64);
        push_range(&mut msg, &d, 0, d.len());
        msg.push(')');
        return Err(CoreError::Network(string_from_chars(&msg)));
    }
    if !ranged && !(status >= 200 && status < 300) {
        let mut msg = str_chars("download failed with status ");
        let d = u64_to_chars(status as u64);
        push_range(&mut msg, &d, 0, d.len());
        return Err(CoreError::Network(string_from_chars(&msg)));
    }
    Ok(())
}

/// The errors of failed segment workers, joined with `"; "`.
pub open spec fn spec_join_errors(s: Seq<Seq<char>>) -> Seq<char>
    decreases s.len(),
{
    if s.len() == 0 {
        seq![]
    } else if s.len() == 1 {
        s[0]
    } else {
        spec_join_errors(s.drop_last()) + seq![';', ' '] + s.last()
    }
}

pub fn join_errors(errors: &Vec<String>) -> (r: String)
    ensures
        r@ == spec_join_errors(errors.deep_view()),
{
    let mut out: Vec<char> = Vec::new();
    let mut i: usize = 0;
    while i < errors.len()
        invariant
            0 <= i <= errors@.len(),
            out@ == spec_join_errors(errors.deep_view().subrange(0, i as int)),
        decreases errors@.len() - i,
    {
        proof {
            assert(errors.deep_view().subrange(0, i + 1).drop_last() =~= errors.deep_view()
                .subrange(0, i as int));
            assert(errors.deep_view().subrange(0, i + 1).last() == errors.deep_view()[i as int]);
            assert(errors.deep_view()[i as int] == errors@[i as int]@);
        }
        if i > 0 {
            out.push(';');
            out.push(' ');
        }
        let e = str_chars(errors[i].as_str());
        push_range(&mut out, &e, 0, e.len());
        proof {
            assert(e@.subrange(0, e@.len() as int) =~= e@);
            assert(out@ =~= spec_join_errors(errors.deep_view().subrange(0, i + 1)));
        }
        i = i + 1;
    }
    proof {
        assert(errors.deep_view().subrange(0, errors.deep_view().len() as int) =~= errors
            .deep_view());
    }
    string_from_chars(&out)
}

/// The terminal status of a finished task run: a stop signal maps to its
/// status; otherwise a failed checksum fails the task with the fixed
/// error text, and a clear run completes. A task completes only with no
/// stop signal and no checksum mismatch.
pub open spec fn spec_finalize(stop: StopSignal, checksum_ok: Option<bool>) -> (
    TaskStatus,
    Option<Seq<char>>,
) {
    match stop {
        StopSignal::Paused => (TaskStatus::Paused, None),
        StopSignal::Canceled => (TaskStatus::Canceled, None),
        StopSignal::Failed => (TaskStatus::Failed, None),
        StopSignal::Clear => {
            if checksum_ok == Some(false) {
                (TaskStatus::Failed, Some("checksum mismatch"@))
            } else {
                (TaskStatus::Completed, None)
            }
        },
    }
}

/// Map the stop flag and the checksum verdict to the task's terminal
/// status. `checksum_ok` is `None` when no checksum was configured.
pub fn finalize_status(stop: StopSignal, checksum_ok: Option<bool>) -> (r: (
    TaskStatus,
    Option<String>,
))
    ensures
        ({
            let expected = spec_finalize(stop, checksum_ok);
            r.0 == expected.0 && (match r.1 {
                Some(ref e) => Some(e@),
                None => None,
            }) == expected.1
        }),
        r.0 == TaskStatus::Completed ==> stop == StopSignal::Clear && checksum_ok != Some(false),
{
    match stop {
        StopSignal::Paused => (TaskStatus::Paused, None),
        StopSignal::Canceled => (TaskStatus::Canceled, None),
        StopSignal::Failed => (TaskStatus::Failed, None),
        StopSignal::Clear => {
            let mismatch = match checksum_ok {
                Some(false) => true,
                _ => false,
            };
            if mismatch {
                let msg = str_chars("checksum mismatch");
                (TaskStatus::Failed, Some(string_from_chars(&msg)))
            } else {
                (TaskStatus::Completed, None)
            }
        },
    }
}

/// Where a segment worker stands in its walk over retry rounds and
/// candidate URLs: round `attempt`, candidate `url_index`.
#[derive(Debug, Clone, Copy, PartialEq, Eq, Structural)]
pub struct RetryState {
    pub attempt: u32,
    pub url_index: usize,
}

impl RetryState {
    /// The walk begins at the first candidate of the first round.
    pub fn first() -> (s: RetryState)
        ensures
            s == (RetryState { attempt: 0, url_index: 0 }),
    {
        RetryState { attempt: 0, url_index: 0 }
    }
}

/// How many attempts a state has behind it: full rounds times the
/// candidate count, plus the candidates already tried this round.
pub open spec fn spec_attempts_made(s: RetryState, n_urls: usize) -> int {
    s.attempt as int * n_urls as int + s.url_index as int
}

/// After a failed attempt, where the walk goes next: the next candidate
/// of the same round with no sleep; after the round's last candidate,
/// the first candidate of the next round after one backoff sleep; after
/// the last round's last candidate, nowhere. Each step advances the
/// attempt position by exactly one, so the walk makes at most
/// `(retry_count + 1) * n_urls` attempts before giving up.
pub fn next_attempt(state: RetryState, n_urls: usize, retry_count: u32, backoff_secs: u64) -> (r:
    Option<(RetryState, u64)>)
    requires
        0 < n_urls,
        state.url_index < n_urls,
        state.attempt <= retry_count,
    ensures
        match r {
            Some(p) => {
                &&& p.0.url_index < n_urls
                &&& p.0.attempt <= retry_count
                &&& spec_attempts_made(p.0, n_urls) == spec_attempts_made(state, n_urls) + 1
                &&& spec_attempts_made(p.0, n_urls) < (retry_count + 1) * n_urls
                &&& p.1 == (if state.url_index + 1 < n_urls {
                    0u64
                } else {
                    backoff_secs
                })
                &&& state.url_index + 1 < n_urls ==> p.0 == (RetryState {
                    attempt: state.attempt,
                    url_index: (state.url_index + 1) as usize,
                })
                &&& state.url_index + 1 == n_urls ==> state.attempt < retry_count && p.0 == (
                RetryState { attempt: (state.attempt + 1) as u32, url_index: 0 })
            },
            None => {
                &&& state.url_index + 1 == n_urls
                &&& state.attempt == retry_count
                &&& spec_attempts_made(state, n_urls) + 1 == (retry_count + 1) * n_urls
            },
        },
{
    if state.url_index + 1 < n_urls {
        proof {
            assert((state.attempt as int * n_urls as int + state.url_index as int + 1) < (
            retry_count as int + 1) * n_urls as int) by (nonlinear_arith)
                requires
                    state.attempt as int <= retry_count as int,
                    state.url_index as int + 1 < n_urls as int,
                    0 < n_urls as int,
            ;
        }
        Some((RetryState { attempt: state.attempt, url_index: state.url_index + 1 }, 0))
    } else if state.attempt < retry_count {
        proof {
            assert((state.attempt as int + 1) * n_urls as int == state.attempt as int
                * n_urls as int + n_urls as int) by (nonlinear_arith);
            assert(((state.attempt as int + 1) * n_urls as int) < (retry_count as int + 1)
                * n_urls as int) by (nonlinear_arith)
                requires
                    state.attempt as int + 1 <= retry_count as int,
                    0 < n_urls as int,
            ;
        }
        Some((RetryState { attempt: state.attempt + 1, url_index: 0 }, backoff_secs))
    } else {
        proof {
            assert((retry_count as int + 1) * n_urls as int == retry_count as int * n_urls as int
                + n_urls as int) by (nonlinear_arith);
        }
        None
    }
}

} // verus!
