//! The transform cache itself: it owns the history of every edge, takes
//! inserts, and resolves queries.

use vstd::prelude::*;
use crate::error::{Tf2Errc, Tf2Error};
use crate::forest::{lemma_after_insert, lemma_chain_depths, lemma_with_frame};
use crate::history::{answer, instant_of, record, EdgePose, Sample};
use crate::time::{nanos_of, HasHeader, LookupTime, TimeSpec};
use crate::transform_stamped::{Transform, TransformStamped};
use crate::tree::{
    failure_of, failure_text, fresh_frame, is_meet, lemma_meet_unique, meets, newest_stamp,
    path_stamp, sample_of, BufferModel, FrameModel, PathModel,
};

verus! {

/// One frame of the cache.
struct FrameRecord {
    name: String,
    parent: Option<usize>,
    is_static: bool,
    samples: Vec<Sample>,
}

/// The transform cache.
pub struct BufferCore {
    cache_time_ns: u64,
    frames: Vec<FrameRecord>,
    /// How many hops each frame is away from its root.
    depths: Ghost<Seq<nat>>,
}

impl View for BufferCore {
    type V = BufferModel;

    closed spec fn view(&self) -> BufferModel {
        BufferModel {
            window: self.cache_time_ns as int,
            frames: Seq::new(
                self.frames@.len(),
                |i: int|
                    FrameModel {
                        name: self.frames@[i].name@,
                        parent: self.frames@[i].parent,
                        depth: self.depths@[i],
                        is_static: self.frames@[i].is_static,
                        samples: self.frames@[i].samples@,
                    },
            ),
        }
    }
}

/// The answer to a query: which samples relate the two frames, hop by hop.
///
/// `source_edges` lead from the source frame up to the lowest common ancestor
/// of the two frames, `target_edges` from the target frame up to it, nearest
/// hop first. The pose of the source frame as seen from the target frame is
/// the chain of the source hops followed by the inverse of the chain of the
/// target hops.
#[derive(Clone, Debug)]
pub struct ResolvedPath {
    pub stamp_sec: i32,
    pub stamp_nanosec: u32,
    pub target_frame: String,
    pub source_frame: String,
    pub source_edges: Vec<EdgePose>,
    pub target_edges: Vec<EdgePose>,
}

impl View for ResolvedPath {
    type V = PathModel;

    open spec fn view(&self) -> PathModel {
        PathModel {
            stamp: (self.stamp_sec, self.stamp_nanosec),
            target_frame: self.target_frame@,
            source_frame: self.source_frame@,
            source_edges: self.source_edges@,
            target_edges: self.target_edges@,
        }
    }
}

impl ResolvedPath {
    /// The pose that the path stands for where no arithmetic is needed to
    /// tell it (see [`PathModel::direct`]).
    pub fn direct(&self) -> (r: Option<Transform>)
        ensures
            r == self@.direct(),
    {
        if self.target_edges.len() != 0 {
            None
        } else if self.source_edges.len() == 0 {
            Some(Transform::identity())
        } else if self.source_edges.len() == 1 {
            match self.source_edges[0] {
                EdgePose::Exact { sec, nanosec, pose } => Some(pose),
                EdgePose::Between { before, after, elapsed, span } => None,
            }
        } else {
            None
        }
    }
}

/// Builds the failure of the given kind with the message the cache gives it.
fn failure(kind: Tf2Errc) -> (e: Tf2Error)
    requires
        kind != Tf2Errc::Success,
    ensures
        e@ == failure_of(kind),
{
    let text = match kind {
        Tf2Errc::Lookup => "frame was never observed",
        Tf2Errc::Connectivity => "frames share no ancestor",
        Tf2Errc::Extrapolation => "time outside the samples of an edge",
        Tf2Errc::InvalidArgument => "transform rejected",
        _ => "unclassified failure",
    };
    Tf2Error::of_kind(kind, text.to_owned())
}

impl BufferCore {
    /// The invariant of the cache (see [`BufferModel::wf`]).
    pub closed spec fn wf(&self) -> bool {
        self@.wf() && self.depths@.len() == self.frames@.len()
    }

    /// A cache that meets its invariant has a model that meets its own.
    pub proof fn lemma_wf(&self)
        requires
            self.wf(),
        ensures
            self@.wf(),
    {
    }

    /// An empty cache that keeps `cache_time_ns` nanoseconds of history per
    /// edge.
    pub fn new(cache_time_ns: u64) -> (b: BufferCore)
        ensures
            b.wf(),
            b@.window == cache_time_ns,
            b@.frames.len() == 0,
    {
        BufferCore { cache_time_ns, frames: Vec::new(), depths: Ghost(Seq::empty()) }
    }

    /// Forgets every frame and every sample; the window stays.
    pub fn clear(&mut self)
        ensures
            final(self).wf(),
            final(self)@.window == old(self)@.window,
            final(self)@.frames.len() == 0,
    {
        self.frames = Vec::new();
        self.depths = Ghost(Seq::empty());
    }

    /// The number of frames observed so far.
    pub fn frame_count(&self) -> (n: usize)
        ensures
            n == self@.frames.len(),
    {
        self.frames.len()
    }

    /// Finds the frame of the given name.
    fn find(&self, name: &String) -> (r: Option<usize>)
        requires
            self.wf(),
        ensures
            r is Some <==> self@.knows(name@),
            r is Some ==> r->Some_0 == self@.index_of(name@) && r->Some_0 < self@.frames.len(),
    {
        let n = self.frames.len();
        let mut i: usize = 0;
        while i < n
            invariant
                self.wf(),
                i <= n,
                n == self.frames.len(),
                forall|j: int| 0 <= j < i ==> (#[trigger] self@.frames[j]).name != name@,
            decreases n - i,
        {
            if self.frames[i].name == *name {
                proof {
                    self@.lemma_index_of(name@, i as int);
                }
                return Some(i);
            }
            i = i + 1;
        }
        None
    }

    /// Walks from `start` up to its root.
    fn chain(&self, start: usize) -> (c: Vec<usize>)
        requires
            self.wf(),
            start < self@.frames.len(),
        ensures
            c@ == self@.lineage(start as int),
            forall|j: int| 0 <= j < c@.len() ==> (#[trigger] c@[j]) < self@.frames.len(),
            c@.len() >= 1,
            c@[0] == start,
    {
        let n = self.frames.len();
        let mut c: Vec<usize> = Vec::new();
        let mut cur = start;
        let mut done = false;
        proof {
            lemma_chain_depths(self@, start, self@.frames[start as int].depth);
        }
        while !done
            invariant
                self.wf(),
                n == self.frames.len(),
                cur < n,
                !done ==> c@ + self@.lineage(cur as int) == self@.lineage(start as int),
                done ==> c@ == self@.lineage(start as int),
            decreases
                    (if done {
                        0
                    } else {
                        self@.frames[cur as int].depth + 1
                    }),
        {
            let ghost before = c@;
            proof {
                lemma_chain_depths(self@, cur, self@.frames[cur as int].depth);
                assert(self@.frame_wf(cur as int));
            }
            c.push(cur);
            match self.frames[cur].parent {
                None => {
                    assert(self@.frames[cur as int].parent is None);
                    assert(c@ =~= before + self@.lineage(cur as int));
                    done = true;
                },
                Some(p) => {
                    assert(self@.frames[cur as int].parent == Some(p));
                    assert(c@ + self@.lineage(p as int) =~= before + self@.lineage(cur as int));
                    cur = p;
                },
            }
        }
        c
    }

    /// Makes the name known: a frame that was not observed yet joins the
    /// cache as a root.
    fn ensure_frame(&mut self, name: &String) -> (i: usize)
        requires
            old(self).wf(),
        ensures
            final(self).wf(),
            final(self)@ == old(self)@.with_frame(name@),
            i < final(self)@.frames.len(),
            i == final(self)@.index_of(name@),
            final(self)@.knows(name@),
            final(self)@.frames[i as int].name == name@,
    {
        match self.find(name) {
            Some(i) => i,
            None => {
                let ghost before = self@;
                let i = self.frames.len();
                self.frames.push(
                    FrameRecord {
                        name: name.clone(),
                        parent: None,
                        is_static: false,
                        samples: Vec::new(),
                    },
                );
                self.depths = Ghost(self.depths@.push(0));
                let count = self.frames.len();
                proof {
                    assert(self@.frames.len() == count);
                    assert(self@.frames =~= before.frames.push(fresh_frame(name@)));
                    lemma_with_frame(before, name@);
                    self@.lemma_index_of(name@, i as int);
                }
                i
            },
        }
    }

    /// Records one sample of the edge from `tf.child_frame` to
    /// `tf.parent_frame`.
    ///
    /// The insert is refused as an invalid argument, and the cache left as it
    /// was, where a coordinate is not finite, the rotation is degenerate, the
    /// two names are equal, or the parent is the child or one of its
    /// descendants. Otherwise both names become known and the child hangs
    /// under the parent. The sample is the only one of the edge where
    /// `is_static`, where the edge was static, and where the child hung under
    /// another parent or under none: a new parent starts a new history. Else
    /// the sample joins the history of the edge under the cache window, which
    /// drops every sample older than the newest one by more than the window;
    /// a sample that is itself so old is accepted and dropped at once.
    /// `authority` names the publisher; the cache does not read it.
    pub fn set_transform(&mut self, tf: &TransformStamped, authority: &str, is_static: bool) -> (r:
        Result<(), Tf2Error>)
        requires
            old(self).wf(),
        ensures
            final(self).wf(),
            r is Err <==> old(self)@.rejects(tf.child_frame@, tf.parent_frame@, tf.spec_pose()),
            r is Err ==> r->Err_0@ == failure_of(Tf2Errc::InvalidArgument) && final(self)@ == old(
                self,
            )@,
            r is Ok ==> final(self)@ == old(self)@.after_insert(
                tf.child_frame@,
                tf.parent_frame@,
                sample_of(tf),
                is_static,
            ),
    {
        let pose = tf.pose();
        if !pose.is_acceptable() {
            return Err(failure(Tf2Errc::InvalidArgument));
        }
        if tf.child_frame == tf.parent_frame {
            return Err(failure(Tf2Errc::InvalidArgument));
        }
        let known_child = self.find(&tf.child_frame);
        let known_parent = self.find(&tf.parent_frame);
        if known_child.is_some() && known_parent.is_some() {
            let line = self.chain(known_parent.unwrap());
            if holds(&line, known_child.unwrap()) {
                return Err(failure(Tf2Errc::InvalidArgument));
            }
        }
        let ghost before = self@;
        let c = self.ensure_frame(&tf.child_frame);
        let p = self.ensure_frame(&tf.parent_frame);
        let ghost m = self@;
        let s = Sample { sec: tf.stamp_sec, nanosec: tf.stamp_nanosec, pose };
        let ghost after = before.after_insert(tf.child_frame@, tf.parent_frame@, s, is_static);
        let count = self.frames.len();
        proof {
            assert(m.frames.len() == count);
            lemma_after_insert(before, tf.child_frame@, tf.parent_frame@, s, is_static);
            assert(m.frames[c as int].name == tf.child_frame@);
            m.lemma_index_of(tf.child_frame@, c as int);
            assert(m.frame_wf(c as int));
        }
        let same_parent = match self.frames[c].parent {
            Some(q) => q == p,
            None => false,
        };
        proof {
            assert(m.frames[p as int].name == tf.parent_frame@);
            m.lemma_index_of(tf.parent_frame@, p as int);
            assert(same_parent == (m.frames[c as int].parent == Some(p)));
        }
        let samples = if is_static || self.frames[c].is_static || !same_parent {
            let mut one: Vec<Sample> = Vec::new();
            one.push(s);
            assert(one@ =~= seq![s]);
            one
        } else {
            record(&self.frames[c].samples, s, self.cache_time_ns)
        };
        self.frames.set(
            c,
            FrameRecord { name: tf.child_frame.clone(), parent: Some(p), is_static, samples },
        );
        self.depths = Ghost(Seq::new(after.frames.len(), |x: int| after.frames[x].depth));
        proof {
            assert(self@.frames =~= after.frames);
        }
        Ok(())
    }

    /// Collects what the first `count` frames of a chain contribute to a
    /// query, or finds that one of them cannot answer.
    fn gather(&self, chain: &Vec<usize>, count: usize, t: Option<i64>) -> (r: Option<Vec<EdgePose>>)
        requires
            self.wf(),
            count <= chain@.len(),
            forall|j: int| 0 <= j < chain@.len() ==> (#[trigger] chain@[j]) < self@.frames.len(),
        ensures
            r is Some <==> self@.answerable(chain@, count as int, instant_of(t)),
            r is Some ==> r->Some_0@ == self@.hops(chain@, count as int, instant_of(t)),
    {
        let mut out: Vec<EdgePose> = Vec::new();
        let mut j: usize = 0;
        while j < count
            invariant
                self.wf(),
                j <= count <= chain@.len(),
                forall|i: int| 0 <= i < chain@.len() ==> (#[trigger] chain@[i]) < self@.frames.len(),
                self@.answerable(chain@, j as int, instant_of(t)),
                out@ == self@.hops(chain@, j as int, instant_of(t)),
            decreases count - j,
        {
            let f = chain[j];
            assert(self@.frame_wf(f as int));
            match answer(&self.frames[f].samples, self.frames[f].is_static, t) {
                None => {
                    assert(self@.hop(chain@[j as int], instant_of(t)) is None);
                    return None;
                },
                Some(e) => {
                    out.push(e);
                    j = j + 1;
                    assert(out@ =~= self@.hops(chain@, j as int, instant_of(t)));
                },
            }
        }
        Some(out)
    }

    /// Resolves the pose of `source_frame` as seen from `target_frame` at the
    /// time `when` into the hops that relate the two frames.
    ///
    /// A frame related to itself gives the empty path without a look at the
    /// cache. Otherwise the query fails with a lookup failure where a name
    /// was never observed, with a connectivity failure where the two frames
    /// have no common ancestor, and with an extrapolation failure where an
    /// edge on the way has no sample at `when` and no two samples around it.
    pub fn lookup_transform(&self, target_frame: &str, source_frame: &str, when: LookupTime) -> (r:
        Result<ResolvedPath, Tf2Error>)
        requires
            self.wf(),
        ensures
            match self@.resolve(target_frame@, source_frame@, when) {
                Ok(m) => r is Ok && r->Ok_0@ == m,
                Err(k) => r is Err && r->Err_0@ == failure_of(k),
            },
    {
        let target = target_frame.to_owned();
        let source = source_frame.to_owned();
        let t = when.resolve_instant();
        assert(instant_of(t) == when.instant());
        if target == source {
            let none: Vec<EdgePose> = Vec::new();
            let (stamp_sec, stamp_nanosec) = stamp_for(when, &none, &none);
            return Ok(
                ResolvedPath {
                    stamp_sec,
                    stamp_nanosec,
                    target_frame: target,
                    source_frame: source,
                    source_edges: none,
                    target_edges: Vec::new(),
                },
            );
        }
        let ti = self.find(&target);
        let si = self.find(&source);
        if ti.is_none() || si.is_none() {
            return Err(failure(Tf2Errc::Lookup));
        }
        let a = self.chain(si.unwrap());
        let b = self.chain(ti.unwrap());
        match find_meet(&a, &b) {
            None => Err(failure(Tf2Errc::Connectivity)),
            Some((k, m)) => {
                proof {
                    lemma_meet_unique(a@, b@, k as int, m as int);
                }
                let source_edges = match self.gather(&a, k, t) {
                    None => {
                        return Err(failure(Tf2Errc::Extrapolation));
                    },
                    Some(e) => e,
                };
                let target_edges = match self.gather(&b, m, t) {
                    None => {
                        return Err(failure(Tf2Errc::Extrapolation));
                    },
                    Some(e) => e,
                };
                let (stamp_sec, stamp_nanosec) = stamp_for(when, &source_edges, &target_edges);
                Ok(
                    ResolvedPath {
                        stamp_sec,
                        stamp_nanosec,
                        target_frame: target,
                        source_frame: source,
                        source_edges,
                        target_edges,
                    },
                )
            },
        }
    }

    /// Resolves the pose of `source_frame` as seen from `target_frame` from
    /// the newest sample of every edge on the way.
    pub fn lookup_latest_transform(&self, target_frame: &str, source_frame: &str) -> (r: Result<
        ResolvedPath,
        Tf2Error,
    >)
        requires
            self.wf(),
        ensures
            match self@.resolve(target_frame@, source_frame@, LookupTime::Latest) {
                Ok(m) => r is Ok && r->Ok_0@ == m,
                Err(k) => r is Err && r->Err_0@ == failure_of(k),
            },
    {
        self.lookup_transform(target_frame, source_frame, LookupTime::Latest)
    }

    /// Whether the query can be resolved. That it cannot is an answer, not a
    /// failure: the result is always `Ok`.
    pub fn can_transform(&self, target_frame: &str, source_frame: &str, when: LookupTime) -> (r:
        Result<bool, Tf2Error>)
        requires
            self.wf(),
        ensures
            r is Ok,
            r->Ok_0 == (self@.resolve(target_frame@, source_frame@, when) is Ok),
    {
        match self.lookup_transform(target_frame, source_frame, when) {
            Ok(_) => Ok(true),
            Err(_) => Ok(false),
        }
    }

    /// Whether the query can be resolved, and where it cannot, the message of
    /// the failure that the query would give.
    pub fn can_transform_with_diagnostic(
        &self,
        target_frame: &str,
        source_frame: &str,
        when: LookupTime,
    ) -> (r: Result<(bool, Option<String>), Tf2Error>)
        requires
            self.wf(),
        ensures
            r is Ok,
            match self@.resolve(target_frame@, source_frame@, when) {
                Ok(m) => r->Ok_0.0 && r->Ok_0.1 is None,
                Err(k) => !r->Ok_0.0 && r->Ok_0.1 is Some && r->Ok_0.1->Some_0@ == failure_text(k),
            },
    {
        match self.lookup_transform(target_frame, source_frame, when) {
            Ok(_) => Ok((true, None)),
            Err(e) => Ok((false, Some(e.message().clone()))),
        }
    }

    /// Resolves the path that takes `msg` into `target_frame`: the query for
    /// the frame of the message as seen from `target_frame`, at the time that
    /// `time` means for the message.
    pub fn transform<T: HasHeader>(&self, msg: &T, target_frame: &str, time: TimeSpec) -> (r: Result<
        ResolvedPath,
        Tf2Error,
    >)
        requires
            self.wf(),
        ensures
            match self@.resolve(target_frame@, msg.header_frame(), message_time(time, msg.header_stamp())) {
                Ok(m) => r is Ok && r->Ok_0@ == m,
                Err(k) => r is Err && r->Err_0@ == failure_of(k),
            },
    {
        let when = time.resolve(msg);
        self.lookup_transform(target_frame, msg.frame_id(), when)
    }

    /// Takes the entries of a batch one by one, in order. An entry that is
    /// refused leaves the cache as it was and does not stop the batch; the
    /// result holds, for each entry in order, the failure it met or `None`.
    pub fn ingest_tf_message(
        &mut self,
        transforms: &Vec<TransformStamped>,
        authority: &str,
        is_static: bool,
    ) -> (report: Vec<Option<Tf2Error>>)
        requires
            old(self).wf(),
        ensures
            final(self).wf(),
            final(self)@ == old(self)@.after_batch(transforms@, is_static),
            report@.len() == transforms@.len(),
            forall|i: int|
                0 <= i < transforms@.len() ==> ((#[trigger] report@[i]) is Some <==> old(
                    self,
                )@.after_batch(transforms@.take(i), is_static).rejects(
                    transforms@[i].child_frame@,
                    transforms@[i].parent_frame@,
                    transforms@[i].spec_pose(),
                )),
            forall|i: int|
                0 <= i < transforms@.len() && (#[trigger] report@[i]) is Some
                    ==> report@[i]->Some_0@ == failure_of(Tf2Errc::InvalidArgument),
    {
        let mut report: Vec<Option<Tf2Error>> = Vec::new();
        let n = transforms.len();
        let mut i: usize = 0;
        while i < n
            invariant
                self.wf(),
                i <= n,
                n == transforms@.len(),
                report@.len() == i,
                self@ == old(self)@.after_batch(transforms@.take(i as int), is_static),
                forall|j: int|
                    0 <= j < i ==> ((#[trigger] report@[j]) is Some <==> old(self)@.after_batch(
                        transforms@.take(j),
                        is_static,
                    ).rejects(
                        transforms@[j].child_frame@,
                        transforms@[j].parent_frame@,
                        transforms@[j].spec_pose(),
                    )),
                forall|j: int|
                    0 <= j < i && (#[trigger] report@[j]) is Some ==> report@[j]->Some_0@
                        == failure_of(Tf2Errc::InvalidArgument),
            decreases n - i,
        {
            let ghost seen = report@;
            let outcome = self.set_transform(&transforms[i], authority, is_static);
            proof {
                assert(transforms@.take(i + 1).drop_last() =~= transforms@.take(i as int));
                assert(transforms@.take(i + 1).last() == transforms@[i as int]);
            }
            match outcome {
                Ok(()) => {
                    report.push(None);
                },
                Err(e) => {
                    report.push(Some(e));
                },
            }
            assert(forall|j: int| 0 <= j < i ==> report@[j] == seen[j]);
            i = i + 1;
        }
        assert(transforms@.take(n as int) =~= transforms@);
        report
    }
}

/// The query time that `time` means for a message with the given stamp.
pub open spec fn message_time(time: TimeSpec, stamp: (i32, u32)) -> LookupTime {
    match time {
        TimeSpec::Latest => LookupTime::Latest,
        TimeSpec::Stamp { sec, nanosec } => (LookupTime::Time { sec, nanosec }),
        TimeSpec::FromMsg => (LookupTime::Time { sec: stamp.0, nanosec: stamp.1 }),
    }
}

/// Finds where `x` first occurs in `v`.
fn position(v: &Vec<usize>, x: usize) -> (r: Option<usize>)
    ensures
        match r {
            Some(m) => m < v@.len() && v@[m as int] == x && forall|j: int|
                0 <= j < m ==> v@[j] != x,
            None => forall|j: int| 0 <= j < v@.len() ==> v@[j] != x,
        },
{
    let mut i: usize = 0;
    while i < v.len()
        invariant
            i <= v.len(),
            forall|j: int| 0 <= j < i ==> v@[j] != x,
        decreases v.len() - i,
    {
        if v[i] == x {
            return Some(i);
        }
        i = i + 1;
    }
    None
}

/// Finds where two ancestor chains meet: the first entry of `a` that occurs
/// in `b`, and its first place there.
fn find_meet(a: &Vec<usize>, b: &Vec<usize>) -> (r: Option<(usize, usize)>)
    ensures
        match r {
            Some((k, m)) => is_meet(a@, b@, k as int, m as int),
            None => !meets(a@, b@),
        },
{
    let mut k: usize = 0;
    while k < a.len()
        invariant
            k <= a.len(),
            forall|i: int, j: int| 0 <= i < k && 0 <= j < b@.len() ==> a@[i] != b@[j],
        decreases a.len() - k,
    {
        match position(b, a[k]) {
            Some(m) => {
                return Some((k, m));
            },
            None => {},
        }
        k = k + 1;
    }
    assert forall|k2: int, m2: int| !is_meet(a@, b@, k2, m2) by {
        if 0 <= k2 < a@.len() && 0 <= m2 < b@.len() {
            assert(a@[k2] != b@[m2]);
        }
    }
    None
}

/// Folds the stamps of the samples taken for `edges` into the running newest
/// stamp.
fn newest_of(edges: &Vec<EdgePose>, best: Option<(i32, u32)>) -> (r: Option<(i32, u32)>)
    ensures
        r == newest_stamp(edges@, best),
{
    let mut acc = best;
    let mut i: usize = 0;
    while i < edges.len()
        invariant
            i <= edges.len(),
            acc == newest_stamp(edges@.take(i as int), best),
        decreases edges.len() - i,
    {
        proof {
            assert(edges@.take(i + 1).drop_last() =~= edges@.take(i as int));
            assert(edges@.take(i + 1).last() == edges@[i as int]);
        }
        acc = match edges[i] {
            EdgePose::Exact { sec, nanosec, pose } => match acc {
                None => Some((sec, nanosec)),
                Some(b) => if nanos_of(sec, nanosec) > nanos_of(b.0, b.1) {
                    Some((sec, nanosec))
                } else {
                    acc
                },
            },
            EdgePose::Between { before, after, elapsed, span } => acc,
        };
        i = i + 1;
    }
    assert(edges@.take(edges@.len() as int) =~= edges@);
    acc
}

/// Computes the stamp of an answer (see [`path_stamp`]).
fn stamp_for(when: LookupTime, source_edges: &Vec<EdgePose>, target_edges: &Vec<EdgePose>) -> (r: (
    i32,
    u32,
))
    ensures
        r == path_stamp(when, source_edges@, target_edges@),
{
    match when {
        LookupTime::Time { sec, nanosec } if !(sec == 0 && nanosec == 0) => (sec, nanosec),
        _ => match newest_of(target_edges, newest_of(source_edges, None)) {
            Some(s) => s,
            None => (0, 0),
        },
    }
}

/// Whether `x` occurs in `v`.
fn holds(v: &Vec<usize>, x: usize) -> (r: bool)
    ensures
        r == v@.contains(x),
{
    let mut i: usize = 0;
    while i < v.len()
        invariant
            i <= v.len(),
            forall|j: int| 0 <= j < i ==> v@[j] != x,
        decreases v.len() - i,
    {
        if v[i] == x {
            return true;
        }
        i = i + 1;
    }
    false
}

} // verus!
