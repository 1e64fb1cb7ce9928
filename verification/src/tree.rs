//! The mathematical model of the transform cache: the frames, the tree that
//! their parent links form, and what an insert and a query mean.

use vstd::prelude::*;
use crate::error::{Failure, Tf2Errc};
use crate::history::{ascending, pose_at, recorded, within_window, EdgePose, Sample};
use crate::time::{stamp_nanos, LookupTime};
use crate::transform_stamped::{Transform, TransformStamped};

verus! {

/// One frame: its name, the index of its parent (none for a root), the
/// number of hops from it up to its root, and the history of its edge to its
/// parent.
pub struct FrameModel {
    pub name: Seq<char>,
    pub parent: Option<usize>,
    pub depth: nat,
    pub is_static: bool,
    pub samples: Seq<Sample>,
}

/// The cache: the window in nanoseconds and the frames in order of first
/// appearance.
pub struct BufferModel {
    pub window: int,
    pub frames: Seq<FrameModel>,
}

/// The answer to a query: the hops from each of the two frames up to their
/// lowest common ancestor, nearest hop first.
pub struct PathModel {
    pub stamp: (i32, u32),
    pub target_frame: Seq<char>,
    pub source_frame: Seq<char>,
    pub source_edges: Seq<EdgePose>,
    pub target_edges: Seq<EdgePose>,
}

impl PathModel {
    /// The pose that the path stands for where no arithmetic is needed to
    /// tell it: the identity for the empty path, and the pose of the sample
    /// for a single hop on the source side that takes a sample as it is.
    pub open spec fn direct(self) -> Option<Transform> {
        if self.target_edges.len() != 0 {
            None
        } else if self.source_edges.len() == 0 {
            Some(Transform::spec_identity())
        } else if self.source_edges.len() == 1 {
            match self.source_edges[0] {
                EdgePose::Exact { sec, nanosec, pose } => Some(pose),
                EdgePose::Between { before, after, elapsed, span } => None,
            }
        } else {
            None
        }
    }
}

/// The path of a single hop: the source frame hangs directly under the
/// target frame and contributes `e`.
pub open spec fn single_hop(target: Seq<char>, source: Seq<char>, time: LookupTime, e: EdgePose) -> PathModel {
    PathModel {
        stamp: path_stamp(time, seq![e], Seq::empty()),
        target_frame: target,
        source_frame: source,
        source_edges: seq![e],
        target_edges: Seq::empty(),
    }
}

/// A frame on its first appearance: a root without samples.
pub open spec fn fresh_frame(name: Seq<char>) -> FrameModel {
    FrameModel { name, parent: None, depth: 0, is_static: false, samples: Seq::empty() }
}

/// `k` and `m` mark the lowest common entry of two ancestor chains: `a[k]` is
/// the first entry of `a` that occurs in `b`, and `m` is where it first
/// occurs there.
pub open spec fn is_meet(a: Seq<usize>, b: Seq<usize>, k: int, m: int) -> bool {
    &&& 0 <= k < a.len()
    &&& 0 <= m < b.len()
    &&& a[k] == b[m]
    &&& forall|i: int, j: int| 0 <= i < k && 0 <= j < b.len() ==> a[i] != b[j]
    &&& forall|j: int| 0 <= j < m ==> b[j] != a[k]
}

/// The two chains have an entry in common.
pub open spec fn meets(a: Seq<usize>, b: Seq<usize>) -> bool {
    exists|k: int, m: int| is_meet(a, b, k, m)
}

/// Where the two chains meet (see [`is_meet`]).
pub open spec fn meet(a: Seq<usize>, b: Seq<usize>) -> (int, int) {
    choose|k: int, m: int| is_meet(a, b, k, m)
}

/// Two chains meet in one place only.
pub proof fn lemma_meet_unique(a: Seq<usize>, b: Seq<usize>, k: int, m: int)
    requires
        is_meet(a, b, k, m),
    ensures
        meets(a, b),
        meet(a, b) == (k, m),
{
    let (k2, m2) = meet(a, b);
    assert(is_meet(a, b, k2, m2));
    if k2 < k {
        assert(a[k2] != b[m2]);
    }
    if k < k2 {
        assert(a[k] != b[m]);
    }
}

/// The later of a running newest stamp and the stamp of one more hop. A
/// blended hop has no stamp of its own.
pub open spec fn later(best: Option<(i32, u32)>, e: EdgePose) -> Option<(i32, u32)> {
    match e {
        EdgePose::Exact { sec, nanosec, pose } => match best {
            None => Some((sec, nanosec)),
            Some(b) => if stamp_nanos(sec, nanosec) > stamp_nanos(b.0, b.1) {
                Some((sec, nanosec))
            } else {
                best
            },
        },
        EdgePose::Between { before, after, elapsed, span } => best,
    }
}

/// The newest stamp among `best` and the samples taken for `edges`; of two
/// equally late stamps the earlier in the sequence stays.
pub open spec fn newest_stamp(edges: Seq<EdgePose>, best: Option<(i32, u32)>) -> Option<(i32, u32)>
    decreases edges.len(),
{
    if edges.len() == 0 {
        best
    } else {
        later(newest_stamp(edges.drop_last(), best), edges.last())
    }
}

/// The stamp of an answer: the requested stamp, or for a query about the
/// newest samples the newest stamp among the samples taken, source side
/// first (zero where no sample was taken).
pub open spec fn path_stamp(time: LookupTime, source_edges: Seq<EdgePose>, target_edges: Seq<EdgePose>) -> (
    i32,
    u32,
) {
    match time {
        LookupTime::Time { sec, nanosec } if time.instant() is Some => (sec, nanosec),
        _ => match newest_stamp(target_edges, newest_stamp(source_edges, None)) {
            Some(s) => s,
            None => (0i32, 0u32),
        },
    }
}

/// The message that a failure of each kind carries.
pub open spec fn failure_text(kind: Tf2Errc) -> Seq<char> {
    match kind {
        Tf2Errc::Lookup => "frame was never observed"@,
        Tf2Errc::Connectivity => "frames share no ancestor"@,
        Tf2Errc::Extrapolation => "time outside the samples of an edge"@,
        Tf2Errc::InvalidArgument => "transform rejected"@,
        _ => "unclassified failure"@,
    }
}

/// The failure of the given kind as the cache reports it.
pub open spec fn failure_of(kind: Tf2Errc) -> Failure {
    Failure { kind, message: failure_text(kind) }
}

/// The sample that a stamped pose carries.
pub open spec fn sample_of(tf: &TransformStamped) -> Sample {
    Sample { sec: tf.stamp_sec, nanosec: tf.stamp_nanosec, pose: tf.spec_pose() }
}

impl BufferModel {
    /// The invariant of the cache.
    pub open spec fn wf(self) -> bool {
        &&& self.window >= 0
        &&& self.frames.len() <= usize::MAX
        &&& forall|i: int, j: int|
            0 <= i < j < self.frames.len() ==> self.frames[i].name != self.frames[j].name
        &&& forall|i: int| 0 <= i < self.frames.len() ==> self.frame_wf(i)
    }

    /// The invariant of one frame: a parent is another frame of the cache,
    /// one hop nearer to the root, so that the parent links form a forest; an
    /// edge has at least one sample, a root none; the samples ascend in time
    /// and lie within the window; a static edge keeps one sample.
    pub open spec fn frame_wf(self, i: int) -> bool {
        let f = self.frames[i];
        &&& match f.parent {
            Some(p) => p < self.frames.len() && p != i && f.samples.len() >= 1 && f.depth
                == self.frames[p as int].depth + 1,
            None => f.samples.len() == 0 && !f.is_static && f.depth == 0,
        }
        &&& ascending(f.samples)
        &&& f.is_static ==> f.samples.len() == 1
        &&& !f.is_static ==> within_window(f.samples, self.window)
    }

    /// The two names can be known to the cache within the limits of the
    /// machine.
    pub open spec fn has_room(self, child: Seq<char>, parent: Seq<char>) -> bool {
        self.with_frame(child).with_frame(parent).frames.len() <= usize::MAX
    }

    /// A frame of this name was observed.
    pub open spec fn knows(self, name: Seq<char>) -> bool {
        exists|i: int| 0 <= i < self.frames.len() && #[trigger] self.frames[i].name == name
    }

    /// The index of the frame of this name.
    pub open spec fn index_of(self, name: Seq<char>) -> int {
        choose|i: int| 0 <= i < self.frames.len() && #[trigger] self.frames[i].name == name
    }

    /// Names are unique, so the frame of a name is found at one index only.
    pub proof fn lemma_index_of(self, name: Seq<char>, i: int)
        requires
            self.wf(),
            0 <= i < self.frames.len(),
            self.frames[i].name == name,
        ensures
            self.knows(name),
            self.index_of(name) == i,
    {
        let k = self.index_of(name);
        if k < i {
            assert(self.frames[k].name != self.frames[i].name);
        }
        if i < k {
            assert(self.frames[i].name != self.frames[k].name);
        }
    }

    /// The cache once the name is known to it.
    pub open spec fn with_frame(self, name: Seq<char>) -> BufferModel {
        if self.knows(name) {
            self
        } else {
            BufferModel { window: self.window, frames: self.frames.push(fresh_frame(name)) }
        }
    }

    /// The chain of frames from `i` upward: `i`, its parent, and so on to a
    /// root, at most `fuel` hops.
    pub open spec fn ancestors(self, i: usize, fuel: nat) -> Seq<usize>
        decreases fuel,
    {
        if fuel == 0 || i >= self.frames.len() {
            seq![i]
        } else {
            match self.frames[i as int].parent {
                None => seq![i],
                Some(p) => seq![i] + self.ancestors(p, (fuel - 1) as nat),
            }
        }
    }

    /// The whole chain of frames from `i` upward, ending at its root.
    pub open spec fn lineage(self, i: int) -> Seq<usize> {
        self.ancestors(i as usize, self.frames[i].depth)
    }

    /// The frame `x` is `c` or hangs below it.
    pub open spec fn below(self, x: int, c: int) -> bool {
        self.lineage(x).contains(c as usize)
    }

    /// Making `parent` the parent of `child` would make `child` its own
    /// ancestor.
    pub open spec fn closes_cycle(self, child: Seq<char>, parent: Seq<char>) -> bool {
        &&& self.knows(child)
        &&& self.knows(parent)
        &&& self.lineage(self.index_of(parent)).contains(self.index_of(child) as usize)
    }

    /// The insert is refused: the pose is malformed, the frame would be its
    /// own parent, or the edge would close a cycle.
    pub open spec fn rejects(self, child: Seq<char>, parent: Seq<char>, pose: Transform) -> bool {
        ||| !pose.acceptable()
        ||| child == parent
        ||| self.closes_cycle(child, parent)
    }

    /// The cache after an accepted insert of the sample `s` on the edge from
    /// `child` to `parent`.
    ///
    /// Both names are known afterwards. The child's parent is `parent`, and
    /// the child and every frame below it are as deep as their new place in
    /// the tree makes them. Where the insert [`BufferModel::starts_afresh`],
    /// `s` is the only sample of the edge; any other insert records `s` in
    /// the history of the edge under the cache window.
    pub open spec fn after_insert(
        self,
        child: Seq<char>,
        parent: Seq<char>,
        s: Sample,
        is_static: bool,
    ) -> BufferModel {
        let m = self.with_frame(child).with_frame(parent);
        let c = m.index_of(child);
        let p = m.index_of(parent);
        let samples = if m.starts_afresh(c, p, is_static) {
            seq![s]
        } else {
            recorded(m.frames[c].samples, s, self.window)
        };
        BufferModel {
            window: self.window,
            frames: Seq::new(
                m.frames.len(),
                |x: int|
                    if x == c {
                        FrameModel {
                            name: child,
                            parent: Some(p as usize),
                            depth: m.frames[p].depth + 1,
                            is_static,
                            samples,
                        }
                    } else {
                        FrameModel { depth: m.moved_depth(x, c, p), ..m.frames[x] }
                    },
            ),
        }
    }

    /// Frame `c` hangs under the frame of the given name.
    pub open spec fn hangs_under(self, c: int, parent: Seq<char>) -> bool {
        self.frames[c].parent is Some && self.frames[self.frames[c].parent->Some_0 as int].name
            == parent
    }

    /// An insert on the edge from `c` to `p` starts the history of `c` anew:
    /// the insert is static, or the edge was static, or `c` did not hang
    /// under `p` before. What was recorded relative to another parent says
    /// nothing of the new edge and is dropped.
    pub open spec fn starts_afresh(self, c: int, p: int, is_static: bool) -> bool {
        is_static || self.frames[c].is_static || self.frames[c].parent != Some(p as usize)
    }

    /// The depth of frame `x` once `c` hangs under `p`: a frame below `c`
    /// moves with it, any other frame stays where it is.
    pub open spec fn moved_depth(self, x: int, c: int, p: int) -> nat {
        if self.below(x, c) {
            (self.frames[x].depth + self.frames[p].depth + 1 - self.frames[c].depth) as nat
        } else {
            self.frames[x].depth
        }
    }

    /// The cache after one entry of a batch: unchanged where the entry is
    /// refused.
    pub open spec fn after_entry(self, tf: &TransformStamped, is_static: bool) -> BufferModel {
        if self.rejects(tf.child_frame@, tf.parent_frame@, tf.spec_pose()) {
            self
        } else {
            self.after_insert(tf.child_frame@, tf.parent_frame@, sample_of(tf), is_static)
        }
    }

    /// The cache after the entries of a batch were taken one by one, in
    /// order.
    pub open spec fn after_batch(self, batch: Seq<TransformStamped>, is_static: bool) -> BufferModel
        decreases batch.len(),
    {
        if batch.len() == 0 {
            self
        } else {
            self.after_batch(batch.drop_last(), is_static).after_entry(&batch.last(), is_static)
        }
    }

    /// What the edge from `frame` to its parent contributes to a query.
    pub open spec fn hop(self, frame: usize, when: Option<int>) -> Option<EdgePose> {
        pose_at(self.frames[frame as int].samples, self.frames[frame as int].is_static, when)
    }

    /// Each of the first `count` frames of the chain can answer the query.
    pub open spec fn answerable(self, chain: Seq<usize>, count: int, when: Option<int>) -> bool {
        forall|j: int| 0 <= j < count ==> (#[trigger] self.hop(chain[j], when)) is Some
    }

    /// The contributions of the first `count` frames of the chain.
    pub open spec fn hops(self, chain: Seq<usize>, count: int, when: Option<int>) -> Seq<EdgePose> {
        Seq::new(count as nat, |j: int| self.hop(chain[j], when)->Some_0)
    }

    /// The answer to the query for `source` as seen from `target`.
    ///
    /// A frame related to itself gives the empty path, whether the name is
    /// known or not. Otherwise an unknown name is a lookup failure; chains
    /// that do not meet are a connectivity failure; an edge on the way that
    /// cannot answer is an extrapolation failure.
    pub open spec fn resolve(self, target: Seq<char>, source: Seq<char>, time: LookupTime) -> Result<
        PathModel,
        Tf2Errc,
    > {
        let when = time.instant();
        if target == source {
            Ok(
                PathModel {
                    stamp: path_stamp(time, Seq::empty(), Seq::empty()),
                    target_frame: target,
                    source_frame: source,
                    source_edges: Seq::empty(),
                    target_edges: Seq::empty(),
                },
            )
        } else if !self.knows(target) || !self.knows(source) {
            Err(Tf2Errc::Lookup)
        } else {
            let a = self.lineage(self.index_of(source));
            let b = self.lineage(self.index_of(target));
            if !meets(a, b) {
                Err(Tf2Errc::Connectivity)
            } else {
                let (k, m) = meet(a, b);
                if !self.answerable(a, k, when) || !self.answerable(b, m, when) {
                    Err(Tf2Errc::Extrapolation)
                } else {
                    let source_edges = self.hops(a, k, when);
                    let target_edges = self.hops(b, m, when);
                    Ok(
                        PathModel {
                            stamp: path_stamp(time, source_edges, target_edges),
                            target_frame: target,
                            source_frame: source,
                            source_edges,
                            target_edges,
                        },
                    )
                }
            }
        }
    }
}

} // verus!
