//! Why the parent links of the cache form a forest, and what follows from
//! it for the chains that queries walk.

use vstd::prelude::*;
use crate::error::Tf2Errc;
use crate::history::{lemma_recorded, recorded, EdgePose, Sample};
use crate::time::LookupTime;
use crate::tree::{
    fresh_frame, is_meet, lemma_meet_unique, single_hop, BufferModel, PathModel,
};

verus! {

/// Registering a name keeps the invariant, keeps every frame that was there,
/// and makes the name known.
pub proof fn lemma_with_frame(g: BufferModel, name: Seq<char>)
    requires
        g.wf(),
        g.with_frame(name).frames.len() <= usize::MAX,
    ensures
        g.with_frame(name).wf(),
        g.with_frame(name).knows(name),
        g.with_frame(name).frames.len() >= g.frames.len(),
        forall|i: int| 0 <= i < g.frames.len() ==> g.with_frame(name).frames[i] == g.frames[i],
        forall|other: Seq<char>| g.knows(other) ==> g.with_frame(name).knows(other),
        !g.knows(name) ==> g.with_frame(name).frames.len() == g.frames.len() + 1 && g.with_frame(
            name,
        ).frames[g.frames.len() as int] == fresh_frame(name),
        g.knows(name) ==> g.with_frame(name) == g,
{
    let h = g.with_frame(name);
    if !g.knows(name) {
        let n = g.frames.len() as int;
        assert(h.frames[n].name == name);
        assert forall|a: int, b: int| 0 <= a < b < h.frames.len() implies h.frames[a].name
            != h.frames[b].name by {
            if b < n {
                assert(g.frames[a].name != g.frames[b].name);
            } else {
                assert(g.frames[a].name != name);
            }
        }
        assert forall|a: int| 0 <= a < h.frames.len() implies h.frame_wf(a) by {
            if a < n {
                assert(g.frame_wf(a));
            }
        }
        assert forall|other: Seq<char>| g.knows(other) implies h.knows(other) by {
            let i = g.index_of(other);
            assert(h.frames[i].name == other);
        }
    }
}

/// The chain from a frame up to its root: it has one frame for each hop and
/// the frame itself, every frame on it belongs to the cache, and each is one
/// hop nearer to the root than the one before.
pub proof fn lemma_chain_depths(g: BufferModel, x: usize, fuel: nat)
    requires
        g.wf(),
        x < g.frames.len(),
        fuel == g.frames[x as int].depth,
    ensures
        g.ancestors(x, fuel).len() == fuel + 1,
        g.ancestors(x, fuel)[0] == x,
        forall|j: int|
            0 <= j <= fuel ==> (#[trigger] g.ancestors(x, fuel)[j]) < g.frames.len()
                && g.frames[g.ancestors(x, fuel)[j] as int].depth + j == fuel,
        match g.frames[x as int].parent {
            Some(q) => g.ancestors(x, fuel) == seq![x] + g.ancestors(q, (fuel - 1) as nat),
            None => g.ancestors(x, fuel) == seq![x],
        },
    decreases fuel,
{
    assert(g.frame_wf(x as int));
    match g.frames[x as int].parent {
        None => {},
        Some(q) => {
            lemma_chain_depths(g, q, (fuel - 1) as nat);
            let rest = g.ancestors(q, (fuel - 1) as nat);
            let all = g.ancestors(x, fuel);
            assert(all =~= seq![x] + rest);
            assert forall|j: int| 0 <= j <= fuel implies (#[trigger] all[j]) < g.frames.len()
                && g.frames[all[j] as int].depth + j == fuel by {
                if j > 0 {
                    assert(all[j] == rest[j - 1]);
                }
            }
        },
    }
}

/// The parent links form a forest: no frame is among the ancestors of its
/// own parent.
pub proof fn lemma_no_cycle(g: BufferModel, c: int)
    requires
        g.wf(),
        0 <= c < g.frames.len(),
        g.frames[c].parent is Some,
    ensures
        !g.below(g.frames[c].parent->Some_0 as int, c),
        g.lineage(c).len() >= 2,
        g.lineage(c)[0] == c,
        g.lineage(c)[1] == g.frames[c].parent->Some_0,
{
    assert(g.frame_wf(c));
    let p = g.frames[c].parent->Some_0;
    lemma_chain_depths(g, p, g.frames[p as int].depth);
    lemma_chain_depths(g, c as usize, g.frames[c].depth);
    let line = g.lineage(p as int);
    if line.contains(c as usize) {
        let j = choose|j: int| 0 <= j < line.len() && #[trigger] line[j] == c as usize;
        assert(g.frames[line[j] as int].depth + j == g.frames[p as int].depth);
    }
    assert(g.lineage(c)[1] == g.lineage(p as int)[0]);
}

/// A frame other than `c` is below `c` exactly if its parent is.
pub proof fn lemma_below_parent(g: BufferModel, x: int, c: int)
    requires
        g.wf(),
        0 <= x < g.frames.len(),
        0 <= c < g.frames.len(),
        x != c,
    ensures
        match g.frames[x].parent {
            Some(q) => g.below(x, c) == g.below(q as int, c),
            None => !g.below(x, c),
        },
        g.below(x, c) ==> g.frames[x].depth > g.frames[c].depth,
        g.below(c, c),
{
    assert(g.frame_wf(x));
    lemma_chain_depths(g, x as usize, g.frames[x].depth);
    lemma_chain_depths(g, c as usize, g.frames[c].depth);
    assert(g.lineage(c)[0] == c as usize);
    let line = g.lineage(x);
    if line.contains(c as usize) {
        let j = choose|j: int| 0 <= j < line.len() && #[trigger] line[j] == c as usize;
        assert(j != 0);
        assert(g.frames[line[j] as int].depth + j == g.frames[x].depth);
    }
    match g.frames[x].parent {
        None => {},
        Some(q) => {
            let rest = g.lineage(q as int);
            assert(line == seq![x as usize] + rest);
            if rest.contains(c as usize) {
                let j = choose|j: int| 0 <= j < rest.len() && #[trigger] rest[j] == c as usize;
                assert(line[j + 1] == c as usize);
            }
            if line.contains(c as usize) {
                let j = choose|j: int| 0 <= j < line.len() && #[trigger] line[j] == c as usize;
                assert(rest[j - 1] == c as usize);
            }
        },
    }
}

/// Two caches that agree on the parent of every frame other than `c` agree
/// on every chain that does not pass through `c`.
pub proof fn lemma_chain_unchanged(g: BufferModel, h: BufferModel, c: usize, x: usize, fuel: nat)
    requires
        g.wf(),
        x < g.frames.len() <= h.frames.len(),
        forall|i: int|
            0 <= i < g.frames.len() && i != c ==> (#[trigger] h.frames[i]).parent
                == g.frames[i].parent,
        !g.ancestors(x, fuel).contains(c),
    ensures
        h.ancestors(x, fuel) == g.ancestors(x, fuel),
    decreases fuel,
{
    let a = g.ancestors(x, fuel);
    assert(a[0] == x);
    assert(x != c);
    assert(h.frames[x as int].parent == g.frames[x as int].parent);
    if fuel > 0 {
        assert(g.frame_wf(x as int));
        match g.frames[x as int].parent {
            None => {},
            Some(p) => {
                let rest = g.ancestors(p, (fuel - 1) as nat);
                assert(a =~= seq![x] + rest);
                assert forall|j: int| 0 <= j < rest.len() implies rest[j] != c by {
                    assert(a[j + 1] == rest[j]);
                }
                lemma_chain_unchanged(g, h, c, p, (fuel - 1) as nat);
            },
        }
    }
}

/// What an accepted insert leaves behind: the invariant holds, both names
/// are known, and the child hangs under the parent with the samples that the
/// insert defines.
pub proof fn lemma_after_insert(
    g: BufferModel,
    child: Seq<char>,
    parent: Seq<char>,
    s: Sample,
    is_static: bool,
)
    requires
        g.wf(),
        g.has_room(child, parent),
        child != parent,
        !g.closes_cycle(child, parent),
    ensures
        ({
            let h = g.after_insert(child, parent, s, is_static);
            let c = h.index_of(child);
            let p = h.index_of(parent);
            let before = g.with_frame(child).with_frame(parent);
            &&& h.wf()
            &&& h.knows(child)
            &&& h.knows(parent)
            &&& 0 <= c < h.frames.len()
            &&& 0 <= p < h.frames.len()
            &&& c != p
            &&& c == before.index_of(child)
            &&& h.frames[c].name == child
            &&& h.frames[p].name == parent
            &&& h.frames[c].parent == Some(p as usize)
            &&& h.frames[c].is_static == is_static
            &&& p == before.index_of(parent)
            &&& h.frames[c].samples == if before.starts_afresh(c, p, is_static) {
                seq![s]
            } else {
                recorded(before.frames[c].samples, s, g.window)
            }
        }),
{
    let g1 = g.with_frame(child);
    lemma_with_frame(g, child);
    let m = g1.with_frame(parent);
    lemma_with_frame(g1, parent);
    let h = g.after_insert(child, parent, s, is_static);
    let n = m.frames.len();
    assert(m.knows(child));
    assert(m.knows(parent));
    let c = m.index_of(child);
    let p = m.index_of(parent);
    assert(m.frames[c].name == child);
    assert(m.frames[p].name == parent);
    assert(c != p);
    assert(m.frame_wf(c));
    if !m.starts_afresh(c, p, is_static) {
        lemma_recorded(m.frames[c].samples, s, g.window);
    }
    assert(h.frames.len() == n);
    // the parent is not below the child
    assert(!m.below(p, c)) by {
        lemma_chain_depths(m, p as usize, m.frames[p].depth);
        if g.knows(child) && g.knows(parent) {
            assert(m == g);
        } else if !g1.knows(parent) {
            assert(p == g1.frames.len());
            assert(m.frames[p] == fresh_frame(parent));
            let line = m.lineage(p);
            if line.contains(c as usize) {
                let j = choose|j: int| 0 <= j < line.len() && #[trigger] line[j] == c as usize;
                assert(j == 0);
            }
        } else {
            assert(!g.knows(child));
            assert(m == g1);
            assert(c == g.frames.len()) by {
                g1.lemma_index_of(child, g.frames.len() as int);
            }
            assert(p < g.frames.len());
            lemma_chain_depths(g, p as usize, g.frames[p].depth);
            let line = g.lineage(p);
            assert(!line.contains(c as usize)) by {
                if line.contains(c as usize) {
                    let j = choose|j: int| 0 <= j < line.len() && #[trigger] line[j] == c as usize;
                    assert(line[j] < g.frames.len());
                }
            }
            lemma_chain_unchanged(g, g1, c as usize, p as usize, g.frames[p].depth);
        }
    }
    assert forall|a: int, b: int| 0 <= a < b < h.frames.len() implies h.frames[a].name
        != h.frames[b].name by {
        assert(m.frames[a].name != m.frames[b].name);
    }
    assert forall|x: int| 0 <= x < h.frames.len() implies h.frame_wf(x) by {
        assert(m.frame_wf(x));
        if x != c {
            lemma_below_parent(m, x, c);
            match m.frames[x].parent {
                None => {},
                Some(q) => {
                    if q as int != c {
                        lemma_below_parent(m, q as int, c);
                    }
                },
            }
        }
    }
    assert(h.wf());
    assert(h.frames[c].name == child);
    assert(h.frames[p].name == parent);
    h.lemma_index_of(child, c);
    h.lemma_index_of(parent, p);
}

/// The query for a frame as seen from its parent is answered by the one hop
/// between them, or fails because that hop cannot answer.
pub proof fn lemma_single_hop(g: BufferModel, c: int, p: int, time: LookupTime)
    requires
        g.wf(),
        0 <= c < g.frames.len(),
        g.frames[c].parent == Some(p as usize),
        0 <= p < g.frames.len(),
    ensures
        g.resolve(g.frames[p].name, g.frames[c].name, time) == match g.hop(
            c as usize,
            time.instant(),
        ) {
            Some(e) => Ok(single_hop(g.frames[p].name, g.frames[c].name, time, e)),
            None => Err::<PathModel, Tf2Errc>(Tf2Errc::Extrapolation),
        },
{
    let target = g.frames[p].name;
    let source = g.frames[c].name;
    let when = time.instant();
    g.lemma_index_of(target, p);
    g.lemma_index_of(source, c);
    let a = g.lineage(c);
    let b = g.lineage(p);
    lemma_no_cycle(g, c);
    lemma_chain_depths(g, p as usize, g.frames[p].depth);
    assert(g.frame_wf(c));
    assert(c != p);
    if c < p {
        assert(g.frames[c].name != g.frames[p].name);
    } else {
        assert(g.frames[p].name != g.frames[c].name);
    }
    assert(is_meet(a, b, 1, 0)) by {
        assert forall|i: int, j: int| 0 <= i < 1 && 0 <= j < b.len() implies a[i] != b[j] by {
            if a[i] == b[j] {
                assert(b.contains(c as usize));
            }
        }
    }
    lemma_meet_unique(a, b, 1, 0);
    assert(g.answerable(b, 0, when));
    assert(g.hops(b, 0, when) =~= Seq::<EdgePose>::empty());
    match g.hop(c as usize, when) {
        Some(e) => {
            assert forall|j: int| 0 <= j < 1 implies (#[trigger] g.hop(a[j], when)) is Some by {}
            assert(g.hops(a, 1, when) =~= seq![e]);
        },
        None => {
            assert(g.hop(a[0], when) is None);
            assert(!g.answerable(a, 1, when));
        },
    }
}

/// A frame that the cache knows keeps its place and its edge while the two
/// names of an insert are made known, and it hangs under the frame that the
/// insert names as parent exactly if it hangs under a frame of that name.
pub proof fn lemma_edge_before_insert(g: BufferModel, child: Seq<char>, parent: Seq<char>, c: int)
    requires
        g.wf(),
        g.has_room(child, parent),
        0 <= c < g.frames.len(),
        g.frames[c].name == child,
    ensures
        ({
            let m = g.with_frame(child).with_frame(parent);
            &&& m.wf()
            &&& m.index_of(child) == c
            &&& m.frames[c] == g.frames[c]
            &&& m.knows(parent)
            &&& (m.frames[c].parent == Some(m.index_of(parent) as usize)) == g.hangs_under(
                c,
                parent,
            )
        }),
{
    g.lemma_index_of(child, c);
    let g1 = g.with_frame(child);
    lemma_with_frame(g, child);
    let m = g1.with_frame(parent);
    lemma_with_frame(g1, parent);
    assert(g1 == g);
    assert(m.frames[c] == g.frames[c]);
    m.lemma_index_of(child, c);
    let p = m.index_of(parent);
    assert(m.frames[p].name == parent);
    assert(g.frame_wf(c));
    match g.frames[c].parent {
        None => {},
        Some(q) => {
            assert(m.frames[q as int] == g.frames[q as int]);
            if g.frames[q as int].name == parent {
                m.lemma_index_of(parent, q as int);
            }
        },
    }
}

} // verus!
