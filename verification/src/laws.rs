//! What holds of the cache across inserts and queries.

use vstd::prelude::*;
use crate::error::Tf2Errc;
use crate::forest::{
    lemma_after_insert, lemma_chain_depths, lemma_edge_before_insert, lemma_no_cycle,
    lemma_single_hop, lemma_with_frame,
};
use crate::history::{
    exact, lemma_pose_at_sample, lemma_recorded, lemma_recorded_keeps, newest_with, Sample,
};
use crate::time::LookupTime;
use crate::transform::{has_coordinate, PointCloud2};
use crate::transform_stamped::Transform;
use crate::tree::{
    fresh_frame, is_meet, lemma_meet_unique, meet, meets, single_hop, BufferModel, PathModel,
};

verus! {

/// A frame related to itself is answered with the empty path, which stands
/// for the identity pose: at every time, in every state of the cache, whether
/// the name was observed or not.
pub proof fn law_self_query_is_identity(g: BufferModel, frame: Seq<char>, time: LookupTime)
    ensures
        g.resolve(frame, frame, time) is Ok,
        g.resolve(frame, frame, time)->Ok_0.source_edges.len() == 0,
        g.resolve(frame, frame, time)->Ok_0.target_edges.len() == 0,
        g.resolve(frame, frame, time)->Ok_0.direct() == Some(Transform::spec_identity()),
{
}

/// A static edge answers the query for its child as seen from its parent
/// with its one sample, whatever time is asked about.
pub proof fn law_static_edge_ignores_time(g: BufferModel, c: int, time: LookupTime)
    requires
        g.wf(),
        0 <= c < g.frames.len(),
        g.frames[c].is_static,
    ensures
        g.frames[c].parent is Some,
        g.resolve(g.frames[g.frames[c].parent->Some_0 as int].name, g.frames[c].name, time) == Ok::<
            PathModel,
            Tf2Errc,
        >(
            single_hop(
                g.frames[g.frames[c].parent->Some_0 as int].name,
                g.frames[c].name,
                time,
                exact(g.frames[c].samples[0]),
            ),
        ),
        single_hop(
            g.frames[g.frames[c].parent->Some_0 as int].name,
            g.frames[c].name,
            time,
            exact(g.frames[c].samples[0]),
        ).direct() == Some(g.frames[c].samples[0].pose),
{
    assert(g.frame_wf(c));
    lemma_single_hop(g, c, g.frames[c].parent->Some_0 as int, time);
}

/// After an accepted static insert the edge is static and holds the inserted
/// sample alone, so that every query for the child as seen from the parent
/// gives the inserted pose.
pub proof fn law_static_insert_answers_every_time(
    g: BufferModel,
    child: Seq<char>,
    parent: Seq<char>,
    s: Sample,
    time: LookupTime,
)
    requires
        g.wf(),
        g.has_room(child, parent),
        !g.rejects(child, parent, s.pose),
    ensures
        g.after_insert(child, parent, s, true).resolve(parent, child, time) == Ok::<
            PathModel,
            Tf2Errc,
        >(single_hop(parent, child, time, exact(s))),
        single_hop(parent, child, time, exact(s)).direct() == Some(s.pose),
{
    lemma_after_insert(g, child, parent, s, true);
    let h = g.after_insert(child, parent, s, true);
    law_static_edge_ignores_time(h, h.index_of(child), time);
}

/// After an accepted insert of the edge from `child` to `parent`, the edge
/// from `parent` to `child` is refused, whatever pose it carries.
pub proof fn law_back_edge_is_rejected(
    g: BufferModel,
    child: Seq<char>,
    parent: Seq<char>,
    s: Sample,
    is_static: bool,
    back: Transform,
)
    requires
        g.wf(),
        g.has_room(child, parent),
        !g.rejects(child, parent, s.pose),
    ensures
        g.after_insert(child, parent, s, is_static).rejects(parent, child, back),
{
    lemma_after_insert(g, child, parent, s, is_static);
    let h = g.after_insert(child, parent, s, is_static);
    let c = h.index_of(child);
    let p = h.index_of(parent);
    lemma_no_cycle(h, c);
    assert(h.lineage(c)[1] == p as usize);
    assert(h.lineage(c).contains(p as usize));
}

/// An edge that would make a frame its own ancestor is refused: where the
/// child is the parent itself or one of the frames above the parent.
pub proof fn law_cycle_is_rejected(g: BufferModel, c: int, p: int, pose: Transform)
    requires
        g.wf(),
        0 <= c < g.frames.len(),
        0 <= p < g.frames.len(),
        g.below(p, c),
    ensures
        g.rejects(g.frames[c].name, g.frames[p].name, pose),
{
    g.lemma_index_of(g.frames[c].name, c);
    g.lemma_index_of(g.frames[p].name, p);
}

/// A query that names a frame never observed, and does not relate a frame to
/// itself, fails with a lookup failure.
pub proof fn law_unknown_frame_is_lookup_failure(
    g: BufferModel,
    target: Seq<char>,
    source: Seq<char>,
    time: LookupTime,
)
    requires
        target != source,
        !g.knows(target) || !g.knows(source),
    ensures
        g.resolve(target, source, time) == Err::<PathModel, Tf2Errc>(Tf2Errc::Lookup),
{
}

/// A query for two known frames whose ancestor chains share no frame fails
/// with a connectivity failure.
pub proof fn law_disjoint_trees_are_connectivity_failure(
    g: BufferModel,
    target: Seq<char>,
    source: Seq<char>,
    time: LookupTime,
)
    requires
        g.wf(),
        g.knows(target),
        g.knows(source),
        forall|i: int, j: int|
            0 <= i < g.lineage(g.index_of(source)).len() && 0 <= j < g.lineage(
                g.index_of(target),
            ).len() ==> g.lineage(g.index_of(source))[i] != g.lineage(g.index_of(target))[j],
    ensures
        g.resolve(target, source, time) == Err::<PathModel, Tf2Errc>(Tf2Errc::Connectivity),
{
    let a = g.lineage(g.index_of(source));
    let b = g.lineage(g.index_of(target));
    lemma_chain_depths(g, g.index_of(source) as usize, g.frames[g.index_of(source)].depth);
    lemma_chain_depths(g, g.index_of(target) as usize, g.frames[g.index_of(target)].depth);
    assert(target != source) by {
        if target == source {
            assert(a[0] == b[0]);
        }
    }
    assert forall|k: int, m: int| !is_meet(a, b, k, m) by {
        if 0 <= k < a.len() && 0 <= m < b.len() {
            assert(a[k] != b[m]);
        }
    }
}

/// The query for the child of a time-varying edge as seen from its parent,
/// at the time of any sample that the edge holds, gives that sample as it
/// is: the first and the last sample included.
pub proof fn law_query_at_sample_returns_it(g: BufferModel, c: int, i: int, time: LookupTime)
    requires
        g.wf(),
        0 <= c < g.frames.len(),
        g.frames[c].parent is Some,
        !g.frames[c].is_static,
        0 <= i < g.frames[c].samples.len(),
        time.instant() == Some(g.frames[c].samples[i].nanos()),
    ensures
        g.resolve(g.frames[g.frames[c].parent->Some_0 as int].name, g.frames[c].name, time) == Ok::<
            PathModel,
            Tf2Errc,
        >(
            single_hop(
                g.frames[g.frames[c].parent->Some_0 as int].name,
                g.frames[c].name,
                time,
                exact(g.frames[c].samples[i]),
            ),
        ),
        single_hop(
            g.frames[g.frames[c].parent->Some_0 as int].name,
            g.frames[c].name,
            time,
            exact(g.frames[c].samples[i]),
        ).direct() == Some(g.frames[c].samples[i].pose),
{
    assert(g.frame_wf(c));
    lemma_pose_at_sample(g.frames[c].samples, i);
    lemma_single_hop(g, c, g.frames[c].parent->Some_0 as int, time);
}

/// The query for the child of a time-varying edge as seen from its parent
/// fails with an extrapolation failure at every time after the newest
/// sample of the edge, and at every time that lies before the newest sample
/// by more than the cache window.
pub proof fn law_outside_history_is_extrapolation_failure(g: BufferModel, c: int, time: LookupTime)
    requires
        g.wf(),
        0 <= c < g.frames.len(),
        g.frames[c].parent is Some,
        !g.frames[c].is_static,
        time.instant() is Some,
        time.instant()->Some_0 > g.frames[c].samples.last().nanos() || time.instant()->Some_0
            < g.frames[c].samples.last().nanos() - g.window,
    ensures
        g.resolve(g.frames[g.frames[c].parent->Some_0 as int].name, g.frames[c].name, time) == Err::<
            PathModel,
            Tf2Errc,
        >(Tf2Errc::Extrapolation),
{
    assert(g.frame_wf(c));
    let e = g.frames[c].samples;
    assert(e.last().nanos() - e[0].nanos() <= g.window);
    lemma_single_hop(g, c, g.frames[c].parent->Some_0 as int, time);
}

/// The samples of the edge from `child` to its parent after an accepted
/// time-varying insert of `s` on that edge.
pub open spec fn edge_after(g: BufferModel, child: Seq<char>, parent: Seq<char>, s: Sample) -> Seq<
    Sample,
> {
    let h = g.after_insert(child, parent, s, false);
    h.frames[h.index_of(child)].samples
}

/// No sample that a continued edge from `child` to `parent` holds is newer
/// than `s` by more than the cache window. An edge is continued by a
/// time-varying insert where it is time-varying itself and the child hangs
/// under that parent already.
pub open spec fn not_outdated(g: BufferModel, child: Seq<char>, parent: Seq<char>, s: Sample) -> bool {
    forall|c: int, i: int|
        0 <= c < g.frames.len() && g.frames[c].name == child && !g.frames[c].is_static
            && g.hangs_under(c, parent) && 0 <= i < g.frames[c].samples.len() ==> (
        #[trigger] g.frames[c].samples[i]).nanos() - s.nanos() <= g.window
}

/// After an accepted time-varying insert on an edge, the inserted sample is
/// among the samples of the edge unless a sample that the edge held before
/// under the same parent is newer by more than the cache window.
pub proof fn law_fresh_sample_is_kept(g: BufferModel, child: Seq<char>, parent: Seq<char>, s: Sample)
    requires
        g.wf(),
        g.has_room(child, parent),
        !g.rejects(child, parent, s.pose),
        not_outdated(g, child, parent, s),
    ensures
        edge_after(g, child, parent, s).contains(s),
{
    lemma_after_insert(g, child, parent, s, false);
    let g1 = g.with_frame(child);
    lemma_with_frame(g, child);
    let m = g1.with_frame(parent);
    lemma_with_frame(g1, parent);
    let c = m.index_of(child);
    let p = m.index_of(parent);
    let old = m.frames[c];
    assert(m.frame_wf(c));
    if m.starts_afresh(c, p, false) {
        assert(seq![s][0] == s);
    } else {
        lemma_recorded(old.samples, s, g.window);
        if g.knows(child) {
            let k = g.index_of(child);
            lemma_edge_before_insert(g, child, parent, k);
            if old.samples.len() > 0 {
                assert(g.frames[k].samples[old.samples.len() - 1] == old.samples.last());
            }
        } else {
            assert(g1.frames[g.frames.len() as int] == fresh_frame(child));
            assert(m.frames[g.frames.len() as int] == fresh_frame(child));
            m.lemma_index_of(child, g.frames.len() as int);
        }
    }
}

/// After an accepted time-varying insert of a sample, the query for the
/// child as seen from the parent at the time of the sample gives the
/// inserted pose, unless a sample that the edge held before under the same
/// parent is newer by more than the cache window.
pub proof fn law_inserted_sample_is_returned(
    g: BufferModel,
    child: Seq<char>,
    parent: Seq<char>,
    s: Sample,
    time: LookupTime,
)
    requires
        g.wf(),
        g.has_room(child, parent),
        !g.rejects(child, parent, s.pose),
        not_outdated(g, child, parent, s),
        time.instant() == Some(s.nanos()),
    ensures
        g.after_insert(child, parent, s, false).resolve(parent, child, time) == Ok::<
            PathModel,
            Tf2Errc,
        >(single_hop(parent, child, time, exact(s))),
        single_hop(parent, child, time, exact(s)).direct() == Some(s.pose),
{
    lemma_after_insert(g, child, parent, s, false);
    law_fresh_sample_is_kept(g, child, parent, s);
    let h = g.after_insert(child, parent, s, false);
    let c = h.index_of(child);
    let e = h.frames[c].samples;
    let i = choose|i: int| 0 <= i < e.len() && e[i] == s;
    law_query_at_sample_returns_it(h, c, i, time);
}

/// A new parent starts a new history. After an accepted insert that moves a
/// frame from one parent to another, the frame hangs under the new parent
/// and the inserted sample is the only one of its edge: nothing that was
/// recorded relative to the old parent is left. The query for the child as
/// seen from the new parent gives the inserted pose at the time of the
/// sample, and where the insert is time-varying it fails with an
/// extrapolation failure at every other time, the times of the old samples
/// included.
pub proof fn law_new_parent_starts_a_new_history(
    g: BufferModel,
    child: Seq<char>,
    parent: Seq<char>,
    s: Sample,
    is_static: bool,
    c: int,
    time: LookupTime,
)
    requires
        g.wf(),
        g.has_room(child, parent),
        !g.rejects(child, parent, s.pose),
        0 <= c < g.frames.len(),
        g.frames[c].name == child,
        !g.hangs_under(c, parent),
        time.instant() is Some,
    ensures
        ({
            let h = g.after_insert(child, parent, s, is_static);
            &&& h.index_of(child) == c
            &&& h.frames[c].parent == Some(h.index_of(parent) as usize)
            &&& h.frames[h.index_of(parent)].name == parent
            &&& forall|other: Seq<char>| other != parent ==> !h.hangs_under(c, other)
            &&& h.frames[c].samples == seq![s]
            &&& h.resolve(parent, child, time) == if is_static || time.instant() == Some(
                s.nanos(),
            ) {
                Ok::<PathModel, Tf2Errc>(single_hop(parent, child, time, exact(s)))
            } else {
                Err::<PathModel, Tf2Errc>(Tf2Errc::Extrapolation)
            }
        }),
{
    lemma_after_insert(g, child, parent, s, is_static);
    lemma_edge_before_insert(g, child, parent, c);
    let h = g.after_insert(child, parent, s, is_static);
    let e = seq![s];
    assert(h.frames[c].samples == e);
    assert(e[0] == s && e.last() == s);
    if is_static {
        law_static_edge_ignores_time(h, c, time);
    } else if time.instant() == Some(s.nanos()) {
        law_query_at_sample_returns_it(h, c, 0, time);
    } else {
        lemma_single_hop(h, c, h.index_of(parent), time);
    }
}

/// After an accepted time-varying insert that continues a time-varying edge
/// under the same parent, every sample that the edge held before is still
/// there, unless it was taken at the time of the inserted sample or is older
/// than the newest sample by more than the cache window.
pub proof fn law_insert_keeps_samples_within_window(
    g: BufferModel,
    child: Seq<char>,
    parent: Seq<char>,
    s: Sample,
    c: int,
    i: int,
)
    requires
        g.wf(),
        g.has_room(child, parent),
        !g.rejects(child, parent, s.pose),
        0 <= c < g.frames.len(),
        g.frames[c].name == child,
        !g.frames[c].is_static,
        g.hangs_under(c, parent),
        0 <= i < g.frames[c].samples.len(),
        g.frames[c].samples[i].nanos() != s.nanos(),
        newest_with(g.frames[c].samples, s) - g.frames[c].samples[i].nanos() <= g.window,
    ensures
        edge_after(g, child, parent, s).contains(g.frames[c].samples[i]),
{
    lemma_after_insert(g, child, parent, s, false);
    lemma_edge_before_insert(g, child, parent, c);
    assert(g.frame_wf(c));
    lemma_recorded_keeps(g.frames[c].samples, s, g.window, i);
}

/// After an accepted time-varying insert of a sample on an edge, the query
/// for the child as seen from its parent fails with an extrapolation failure
/// at every time that lies before the inserted sample by more than the cache
/// window: what the window has dropped is out of reach.
pub proof fn law_evicted_is_out_of_reach(
    g: BufferModel,
    child: Seq<char>,
    parent: Seq<char>,
    s: Sample,
    time: LookupTime,
)
    requires
        g.wf(),
        g.has_room(child, parent),
        !g.rejects(child, parent, s.pose),
        time.instant() is Some,
        time.instant()->Some_0 < s.nanos() - g.window,
    ensures
        g.after_insert(child, parent, s, false).resolve(parent, child, time) == Err::<
            PathModel,
            Tf2Errc,
        >(Tf2Errc::Extrapolation),
{
    lemma_after_insert(g, child, parent, s, false);
    let h = g.after_insert(child, parent, s, false);
    let c = h.index_of(child);
    let g1 = g.with_frame(child);
    lemma_with_frame(g, child);
    let m = g1.with_frame(parent);
    lemma_with_frame(g1, parent);
    assert(m.frame_wf(c));
    let e = h.frames[c].samples;
    if !m.starts_afresh(c, m.index_of(parent), false) {
        lemma_recorded(m.frames[c].samples, s, g.window);
    } else {
        assert(e[0] == s);
    }
    assert(e.last().nanos() >= s.nanos());
    law_outside_history_is_extrapolation_failure(h, c, time);
}

/// Where the chains of two frames meet is their lowest common ancestor:
/// every frame that the two chains share stands at the meeting place or
/// above it on both chains, so that the meeting place is the same from
/// either side.
pub proof fn law_meet_is_lowest_common_ancestor(g: BufferModel, x: int, y: int)
    requires
        g.wf(),
        0 <= x < g.frames.len(),
        0 <= y < g.frames.len(),
        meets(g.lineage(x), g.lineage(y)),
    ensures
        forall|i: int, j: int|
            0 <= i < g.lineage(x).len() && 0 <= j < g.lineage(y).len() && g.lineage(x)[i]
                == g.lineage(y)[j] ==> i >= meet(g.lineage(x), g.lineage(y)).0 && j >= meet(
                g.lineage(x),
                g.lineage(y),
            ).1,
        is_meet(
            g.lineage(y),
            g.lineage(x),
            meet(g.lineage(x), g.lineage(y)).1,
            meet(g.lineage(x), g.lineage(y)).0,
        ),
        meets(g.lineage(y), g.lineage(x)),
        meet(g.lineage(y), g.lineage(x)) == (
            meet(g.lineage(x), g.lineage(y)).1,
            meet(g.lineage(x), g.lineage(y)).0,
        ),
{
    let a = g.lineage(x);
    let b = g.lineage(y);
    let (k, m) = meet(a, b);
    assert(is_meet(a, b, k, m));
    lemma_chain_depths(g, x as usize, g.frames[x].depth);
    lemma_chain_depths(g, y as usize, g.frames[y].depth);
    assert forall|i: int, j: int| 0 <= i < a.len() && 0 <= j < b.len() && a[i] == b[j] implies i
        >= k && j >= m by {
        assert(g.frames[a[i] as int].depth + i == g.frames[x].depth);
        assert(g.frames[b[j] as int].depth + j == g.frames[y].depth);
        assert(g.frames[a[k] as int].depth + k == g.frames[x].depth);
        assert(g.frames[b[m] as int].depth + m == g.frames[y].depth);
    }
    assert(is_meet(b, a, m, k));
    lemma_meet_unique(b, a, m, k);
}

/// Turning a query round turns its answer round: the query for `a` as seen
/// from `b` fails exactly where the query for `b` as seen from `a` fails,
/// with the same kind of failure, and where both succeed the hops of the one
/// are the hops of the other with the two sides exchanged.
pub proof fn law_turned_query_has_turned_path(
    g: BufferModel,
    a: Seq<char>,
    b: Seq<char>,
    time: LookupTime,
)
    requires
        g.wf(),
    ensures
        match (g.resolve(a, b, time), g.resolve(b, a, time)) {
            (Ok(p), Ok(q)) => p.source_edges == q.target_edges && p.target_edges == q.source_edges,
            (Err(e), Err(f)) => e == f,
            _ => false,
        },
{
    if a != b && g.knows(a) && g.knows(b) {
        let x = g.index_of(a);
        let y = g.index_of(b);
        if meets(g.lineage(x), g.lineage(y)) {
            law_meet_is_lowest_common_ancestor(g, x, y);
        }
        if meets(g.lineage(y), g.lineage(x)) {
            law_meet_is_lowest_common_ancestor(g, y, x);
        }
    }
}

/// A cloud without a field that describes one of the three coordinates as a
/// 4-byte number cannot be located.
pub proof fn law_missing_coordinate_is_not_locatable(cloud: &PointCloud2)
    requires
        !has_coordinate(cloud.fields@, "x"@) || !has_coordinate(cloud.fields@, "y"@)
            || !has_coordinate(cloud.fields@, "z"@),
    ensures
        !cloud.locatable(),
{
    reveal(PointCloud2::locatable);
}

} // verus!
