//! The history of one edge: samples in order of time, bounded by the cache
//! window, and the rule that answers a query from them.

use vstd::prelude::*;
use crate::time::{nanos_of, stamp_nanos};
use crate::transform_stamped::Transform;

verus! {

/// One observation of an edge: a pose and the stamp it was taken at.
#[derive(Clone, Copy, Debug, PartialEq, Eq, Structural)]
pub struct Sample {
    pub sec: i32,
    pub nanosec: u32,
    pub pose: Transform,
}

impl Sample {
    /// The time of the sample on the integer timeline, in nanoseconds.
    pub open spec fn nanos(self) -> int {
        stamp_nanos(self.sec, self.nanosec)
    }

    /// Computes [`Sample::nanos`].
    pub fn at(&self) -> (t: i64)
        ensures
            t == self.nanos(),
    {
        nanos_of(self.sec, self.nanosec)
    }
}

/// What one edge contributes to a query.
#[derive(Clone, Copy, Debug, PartialEq, Eq, Structural)]
pub enum EdgePose {
    /// The pose of one stored sample, taken as it is; `sec` and `nanosec` are
    /// the stamp of that sample.
    Exact { sec: i32, nanosec: u32, pose: Transform },
    /// A pose to be blended from the two samples that bracket the requested
    /// time: `elapsed` of the `span` nanoseconds between them have passed,
    /// with `0 < elapsed < span`.
    Between { before: Transform, after: Transform, elapsed: u64, span: u64 },
}

/// The samples stand in strictly increasing order of time.
pub open spec fn ascending(h: Seq<Sample>) -> bool {
    forall|i: int, j: int| 0 <= i < j < h.len() ==> h[i].nanos() < h[j].nanos()
}

/// No sample is older than the newest one by more than `window` nanoseconds.
pub open spec fn within_window(h: Seq<Sample>, window: int) -> bool {
    forall|i: int| 0 <= i < h.len() ==> h.last().nanos() - #[trigger] h[i].nanos() <= window
}

/// The number of samples taken before time `t`. In an ascending history this
/// is the index of the first sample at or after `t`.
pub open spec fn rank(h: Seq<Sample>, t: int) -> int
    decreases h.len(),
{
    if h.len() == 0 {
        0
    } else {
        rank(h.drop_last(), t) + if h.last().nanos() < t {
            1int
        } else {
            0int
        }
    }
}

/// In an ascending history the samples before `t` are exactly those at the
/// indices below `rank(h, t)`.
pub proof fn lemma_rank(h: Seq<Sample>, t: int)
    requires
        ascending(h),
    ensures
        0 <= rank(h, t) <= h.len(),
        forall|i: int| 0 <= i < rank(h, t) ==> (#[trigger] h[i]).nanos() < t,
        forall|i: int| rank(h, t) <= i < h.len() ==> (#[trigger] h[i]).nanos() >= t,
    decreases h.len(),
{
    if h.len() > 0 {
        let g = h.drop_last();
        assert(ascending(g));
        lemma_rank(g, t);
        assert forall|i: int| 0 <= i < rank(h, t) implies (#[trigger] h[i]).nanos() < t by {
            if i < g.len() {
                assert(h[i] == g[i]);
                if i >= rank(g, t) {
                    assert(h.last().nanos() < t);
                    assert(h[i].nanos() < h[h.len() - 1].nanos());
                }
            }
        }
        assert forall|i: int| rank(h, t) <= i < h.len() implies (#[trigger] h[i]).nanos() >= t by {
            if i < g.len() {
                assert(h[i] == g[i]);
            }
        }
    }
}

/// An index that splits an ascending history into the samples before `t` and
/// the samples at or after `t` is `rank(h, t)`.
pub proof fn lemma_rank_is(h: Seq<Sample>, t: int, k: int)
    requires
        ascending(h),
        0 <= k <= h.len(),
        forall|i: int| 0 <= i < k ==> (#[trigger] h[i]).nanos() < t,
        k < h.len() ==> h[k].nanos() >= t,
    ensures
        rank(h, t) == k,
{
    lemma_rank(h, t);
    let r = rank(h, t);
    if r < k {
        assert(h[r].nanos() < t);
        assert(h[r].nanos() >= t);
    }
    if k < r {
        assert(h[k].nanos() < t);
    }
}

/// Finds the index of the first sample at or after `t`.
pub fn first_at_or_after(h: &Vec<Sample>, t: i128) -> (k: usize)
    requires
        ascending(h@),
    ensures
        k == rank(h@, t as int),
        k <= h.len(),
{
    let mut k: usize = 0;
    while k < h.len() && (h[k].at() as i128) < t
        invariant
            k <= h.len(),
            ascending(h@),
            forall|i: int| 0 <= i < k ==> (#[trigger] h@[i]).nanos() < t,
        decreases h.len() - k,
    {
        k = k + 1;
    }
    proof {
        lemma_rank_is(h@, t as int, k as int);
    }
    k
}

/// The time of the newest sample once `s` has joined the history `h`.
pub open spec fn newest_with(h: Seq<Sample>, s: Sample) -> int {
    if h.len() > 0 && h.last().nanos() > s.nanos() {
        h.last().nanos()
    } else {
        s.nanos()
    }
}

pub open spec fn max_int(a: int, b: int) -> int {
    if a >= b {
        a
    } else {
        b
    }
}

/// The history after the sample `s` has been recorded under a cache window
/// of `window` nanoseconds: `s` stands at its place in time, a sample that
/// had the same time is gone, and so is every sample older than the newest
/// one by more than the window (which may be `s` itself).
pub open spec fn recorded(h: Seq<Sample>, s: Sample, window: int) -> Seq<Sample> {
    let newest = newest_with(h, s);
    let lo = rank(h, newest - window);
    if newest - s.nanos() <= window {
        h.subrange(lo, max_int(lo, rank(h, s.nanos()))).push(s) + h.subrange(
            max_int(lo, rank(h, s.nanos() + 1)),
            h.len() as int,
        )
    } else {
        h.subrange(lo, h.len() as int)
    }
}

/// The three parts of a history in which `s` was recorded and kept, index by
/// index.
proof fn lemma_recorded_shape(h: Seq<Sample>, s: Sample, window: int)
    requires
        ascending(h),
        newest_with(h, s) - s.nanos() <= window,
    ensures
        ({
            let lo = rank(h, newest_with(h, s) - window);
            let b = max_int(lo, rank(h, s.nanos()));
            let c = max_int(lo, rank(h, s.nanos() + 1));
            let r = recorded(h, s, window);
            &&& 0 <= lo <= b <= h.len()
            &&& lo <= c <= h.len()
            &&& r.len() == (b - lo) + 1 + (h.len() - c)
            &&& r[b - lo] == s
            &&& forall|i: int| 0 <= i < b - lo ==> #[trigger] r[i] == h[lo + i]
            &&& forall|i: int| b - lo < i < r.len() ==> #[trigger] r[i] == h[c + i - (b - lo) - 1]
        }),
{
    let newest = newest_with(h, s);
    lemma_rank(h, newest - window);
    lemma_rank(h, s.nanos());
    lemma_rank(h, s.nanos() + 1);
}

/// What recording a sample keeps true of a history, and what it achieves.
pub proof fn lemma_recorded(h: Seq<Sample>, s: Sample, window: int)
    requires
        ascending(h),
        window >= 0,
    ensures
        ascending(recorded(h, s, window)),
        within_window(recorded(h, s, window), window),
        recorded(h, s, window).len() >= 1,
        recorded(h, s, window).last().nanos() == newest_with(h, s),
        newest_with(h, s) - s.nanos() <= window ==> recorded(h, s, window).contains(s),
{
    let newest = newest_with(h, s);
    let lo = rank(h, newest - window);
    let n = h.len() as int;
    let r = recorded(h, s, window);
    lemma_rank(h, newest - window);
    if newest - s.nanos() <= window {
        let b = max_int(lo, rank(h, s.nanos()));
        let c = max_int(lo, rank(h, s.nanos() + 1));
        let m = b - lo;
        lemma_recorded_shape(h, s, window);
        lemma_rank(h, s.nanos());
        lemma_rank(h, s.nanos() + 1);
        assert(r[m] == s);
        assert forall|i: int| 0 <= i < r.len() implies newest - window <= (#[trigger] r[i]).nanos()
            && (i < m ==> r[i].nanos() < s.nanos()) && (i > m ==> r[i].nanos() > s.nanos()) by {
            if i < m {
                assert(r[i] == h[lo + i]);
            } else if i > m {
                assert(r[i] == h[c + i - m - 1]);
            }
        }
        assert forall|i: int, j: int| 0 <= i < j < r.len() implies r[i].nanos() < r[j].nanos() by {
            if j < m {
                assert(r[i] == h[lo + i]);
                assert(r[j] == h[lo + j]);
            } else if i > m {
                assert(r[i] == h[c + i - m - 1]);
                assert(r[j] == h[c + j - m - 1]);
            } else {
                assert(r[i].nanos() <= s.nanos());
                assert(r[j].nanos() >= s.nanos());
            }
        }
        if c < n {
            assert(r[r.len() - 1] == h[c + (r.len() - 1) - m - 1]);
            assert(h[n - 1].nanos() > s.nanos());
        } else {
            assert(r.len() - 1 == m);
            if n > 0 && h[n - 1].nanos() > s.nanos() {
                assert(n - 1 >= rank(h, s.nanos() + 1));
                assert(h[n - 1].nanos() >= newest - window);
                assert(n - 1 >= lo);
            }
        }
        assert(r.last().nanos() == newest);
    } else {
        assert(n > 0 && h[n - 1].nanos() == newest);
        assert(lo <= n - 1);
        assert(r.len() == n - lo);
        assert forall|i: int| 0 <= i < r.len() implies (#[trigger] r[i]) == h[lo + i] by {}
        assert(r.last() == h[n - 1]);
        assert forall|i: int, j: int| 0 <= i < j < r.len() implies r[i].nanos() < r[j].nanos() by {
            assert(r[i] == h[lo + i]);
            assert(r[j] == h[lo + j]);
        }
    }
}

/// Recording keeps every sample that is within the window of the newest one
/// and was not taken at the time of the new sample.
pub proof fn lemma_recorded_keeps(h: Seq<Sample>, s: Sample, window: int, i: int)
    requires
        ascending(h),
        0 <= i < h.len(),
        h[i].nanos() != s.nanos(),
        newest_with(h, s) - h[i].nanos() <= window,
    ensures
        recorded(h, s, window).contains(h[i]),
{
    let newest = newest_with(h, s);
    let lo = rank(h, newest - window);
    let r = recorded(h, s, window);
    lemma_rank(h, newest - window);
    assert(i >= lo);
    if newest - s.nanos() <= window {
        let b = max_int(lo, rank(h, s.nanos()));
        let c = max_int(lo, rank(h, s.nanos() + 1));
        lemma_recorded_shape(h, s, window);
        lemma_rank(h, s.nanos());
        lemma_rank(h, s.nanos() + 1);
        if h[i].nanos() < s.nanos() {
            assert(i < rank(h, s.nanos()));
            assert(r[i - lo] == h[lo + (i - lo)]);
        } else {
            assert(i >= rank(h, s.nanos() + 1));
            let j = (b - lo) + 1 + (i - c);
            assert(r[j] == h[c + j - (b - lo) - 1]);
        }
    } else {
        assert(r[i - lo] == h[i]);
    }
}

/// Recording makes nothing up: every sample of the new history is the new
/// sample or a sample of the old history.
pub proof fn law_recorded_samples_are_not_made_up(h: Seq<Sample>, s: Sample, window: int, j: int)
    requires
        ascending(h),
        0 <= j < recorded(h, s, window).len(),
    ensures
        recorded(h, s, window)[j] == s || h.contains(recorded(h, s, window)[j]),
{
    let newest = newest_with(h, s);
    let lo = rank(h, newest - window);
    let r = recorded(h, s, window);
    lemma_rank(h, newest - window);
    if newest - s.nanos() <= window {
        let b = max_int(lo, rank(h, s.nanos()));
        let c = max_int(lo, rank(h, s.nanos() + 1));
        lemma_recorded_shape(h, s, window);
        if j < b - lo {
            assert(r[j] == h[lo + j]);
        } else if j > b - lo {
            assert(r[j] == h[c + j - (b - lo) - 1]);
        }
    } else {
        assert(r[j] == h[lo + j]);
    }
}

/// Records `s` in the history `h` under a cache window of `window`
/// nanoseconds, and returns the new history.
pub fn record(h: &Vec<Sample>, s: Sample, window: u64) -> (out: Vec<Sample>)
    requires
        ascending(h@),
    ensures
        out@ == recorded(h@, s, window as int),
        ascending(out@),
        within_window(out@, window as int),
        out@.len() >= 1,
{
    let n = h.len();
    let at: i128 = s.at() as i128;
    let mut newest: i128 = at;
    if n > 0 {
        let last: i128 = h[n - 1].at() as i128;
        if last > at {
            newest = last;
        }
    }
    let cutoff: i128 = newest - (window as i128);
    let lo = first_at_or_after(h, cutoff);
    let mut out: Vec<Sample> = Vec::new();
    if at >= cutoff {
        let b0 = first_at_or_after(h, at);
        let c0 = first_at_or_after(h, at + 1);
        let b = if b0 > lo { b0 } else { lo };
        let c = if c0 > lo { c0 } else { lo };
        let mut i: usize = lo;
        while i < b
            invariant
                lo <= i <= b <= n,
                n == h.len(),
                out@ == h@.subrange(lo as int, i as int),
            decreases b - i,
        {
            out.push(h[i]);
            i = i + 1;
            assert(out@ =~= h@.subrange(lo as int, i as int));
        }
        out.push(s);
        let ghost head = out@;
        let mut j: usize = c;
        while j < n
            invariant
                c <= j <= n,
                n == h.len(),
                out@ == head + h@.subrange(c as int, j as int),
            decreases n - j,
        {
            out.push(h[j]);
            j = j + 1;
            assert(out@ =~= head + h@.subrange(c as int, j as int));
        }
        assert(out@ =~= recorded(h@, s, window as int));
    } else {
        let mut i: usize = lo;
        while i < n
            invariant
                lo <= i <= n,
                n == h.len(),
                out@ == h@.subrange(lo as int, i as int),
            decreases n - i,
        {
            out.push(h[i]);
            i = i + 1;
            assert(out@ =~= h@.subrange(lo as int, i as int));
        }
        assert(out@ =~= recorded(h@, s, window as int));
    }
    proof {
        lemma_recorded(h@, s, window as int);
    }
    out
}

/// The contribution that takes the sample `s` as it is.
pub open spec fn exact(s: Sample) -> EdgePose {
    EdgePose::Exact { sec: s.sec, nanosec: s.nanosec, pose: s.pose }
}

/// A query time as a mathematical value: `None` asks for the newest sample.
pub open spec fn instant_of(when: Option<i64>) -> Option<int> {
    match when {
        None => None,
        Some(t) => Some(t as int),
    }
}

/// What the edge with history `h` contributes to a query, or `None` where it
/// cannot answer.
///
/// An edge without samples cannot answer. A static edge answers every query
/// with its sample. Any other edge answers a query for the newest sample with
/// its last one; a query for a time `t` before its first or after its last
/// sample it cannot answer; where a sample was taken at `t` exactly it answers
/// with that sample, and otherwise with the two samples around `t`.
pub open spec fn pose_at(h: Seq<Sample>, is_static: bool, when: Option<int>) -> Option<EdgePose> {
    if h.len() == 0 {
        None
    } else if is_static || when is None {
        Some(exact(h.last()))
    } else {
        let t = when->Some_0;
        if t < h[0].nanos() || t > h.last().nanos() {
            None
        } else {
            let k = rank(h, t);
            if h[k].nanos() == t {
                Some(exact(h[k]))
            } else {
                Some(
                    EdgePose::Between {
                        before: h[k - 1].pose,
                        after: h[k].pose,
                        elapsed: (t - h[k - 1].nanos()) as u64,
                        span: (h[k].nanos() - h[k - 1].nanos()) as u64,
                    },
                )
            }
        }
    }
}

/// A query for the time of a stored sample is answered with that sample.
pub proof fn lemma_pose_at_sample(h: Seq<Sample>, i: int)
    requires
        ascending(h),
        0 <= i < h.len(),
    ensures
        pose_at(h, false, Some(h[i].nanos())) == Some(exact(h[i])),
{
    lemma_rank_is(h, h[i].nanos(), i);
}

/// An answer for an explicit time is a sample taken at that time, or a blend
/// that lies strictly inside its bracket.
pub proof fn law_answer_is_a_sample_or_a_proper_blend(h: Seq<Sample>, t: int)
    requires
        ascending(h),
        pose_at(h, false, Some(t)) is Some,
    ensures
        match pose_at(h, false, Some(t))->Some_0 {
            EdgePose::Exact { sec, nanosec, pose } => exists|i: int|
                0 <= i < h.len() && #[trigger] h[i].nanos() == t && exact(h[i]) == pose_at(
                    h,
                    false,
                    Some(t),
                )->Some_0,
            EdgePose::Between { before, after, elapsed, span } => 0 < elapsed < span,
        },
{
    lemma_rank(h, t);
    let k = rank(h, t);
    if h[k].nanos() != t {
        assert(k > 0);
        assert(h[k - 1].nanos() < t);
        assert(h[k - 1].nanos() >= -0x8000_0000 * 1_000_000_000);
        assert(h[k].nanos() <= 0x7fff_ffff * 1_000_000_000 + 0xffff_ffff);
    }
}

/// Answers a query from the history of one edge.
pub fn answer(h: &Vec<Sample>, is_static: bool, when: Option<i64>) -> (r: Option<EdgePose>)
    requires
        ascending(h@),
    ensures
        r == pose_at(h@, is_static, instant_of(when)),
{
    let n = h.len();
    if n == 0 {
        return None;
    }
    let last = h[n - 1];
    match when {
        None => Some(EdgePose::Exact { sec: last.sec, nanosec: last.nanosec, pose: last.pose }),
        Some(t) => {
            if is_static {
                return Some(
                    EdgePose::Exact { sec: last.sec, nanosec: last.nanosec, pose: last.pose },
                );
            }
            if t < h[0].at() || t > last.at() {
                return None;
            }
            let k = first_at_or_after(h, t as i128);
            proof {
                lemma_rank(h@, t as int);
            }
            let hit = h[k];
            let hit_at = hit.at();
            if hit_at == t {
                Some(EdgePose::Exact { sec: hit.sec, nanosec: hit.nanosec, pose: hit.pose })
            } else {
                let prev = h[k - 1];
                let prev_at = prev.at();
                let elapsed: u64 = ((t as i128) - (prev_at as i128)) as u64;
                let span: u64 = ((hit_at as i128) - (prev_at as i128)) as u64;
                Some(EdgePose::Between { before: prev.pose, after: hit.pose, elapsed, span })
            }
        },
    }
}

} // verus!
