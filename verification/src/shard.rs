//! One shard of the temporal graph store: a vertex table, an edge table, and
//! the timestamped event histories of both.
//!
//! A shard owns the vertices whose global id hashes to it. An edge whose
//! endpoints share the shard is stored once, as a local edge; an edge that
//! crosses shards is stored as an out half-edge in the source's shard and an
//! into half-edge in the destination's shard. Every edge keeps one entry per
//! (source, destination) pair and appends each new occurrence timestamp to
//! that entry, so windowed queries can ask which edges have an event inside
//! a window.

use crate::props::{apply_props, Prop, TemporalProps};
use vstd::prelude::*;

verus! {

/// An optional half-open time window [start, end); `None` means unbounded.
pub type Window = Option<(i64, i64)>;

/// Does `t` fall inside the window?
pub open spec fn in_window(w: Window, t: i64) -> bool {
    match w {
        None => true,
        Some((s, e)) => s <= t < e,
    }
}

/// Does some event of `times` fall inside the window?
pub open spec fn has_event_in(times: Seq<i64>, w: Window) -> bool {
    exists|k: int| 0 <= k < times.len() && in_window(w, times[k])
}

/// Check whether any event of `times` falls inside the window.
pub fn any_event_in(times: &Vec<i64>, w: Window) -> (r: bool)
    ensures
        r == has_event_in(times@, w),
{
    let mut k: usize = 0;
    while k < times.len()
        invariant
            k <= times@.len(),
            forall|m: int| 0 <= m < k ==> !in_window(w, times@[m]),
        decreases times@.len() - k,
    {
        let t = times[k];
        let inside = match w {
            None => true,
            Some((s, e)) => s <= t && t < e,
        };
        if inside {
            return true;
        }
        k += 1;
    }
    false
}

proof fn lemma_to_set_push(s: Seq<u64>, x: u64)
    ensures
        s.push(x).to_set() =~= s.to_set().insert(x),
{
    assert forall|y: u64| s.push(x).to_set().contains(y) implies s.to_set().insert(x).contains(
        y,
    ) by {
        let i = choose|i: int| 0 <= i < s.push(x).len() && s.push(x)[i] == y;
        if i < s.len() {
            assert(s[i] == y);
        }
    }
    assert forall|y: u64| s.to_set().insert(x).contains(y) implies s.push(x).to_set().contains(
        y,
    ) by {
        if y == x {
            assert(s.push(x)[s.len() as int] == y);
        } else {
            let i = choose|i: int| 0 <= i < s.len() && s[i] == y;
            assert(s.push(x)[i] == y);
        }
    }
}

/// A direction of traversal from a vertex.
#[derive(Clone, Copy, Debug, PartialEq, Eq, Structural)]
pub enum Direction {
    In,
    Out,
    Both,
}

/// The smallest element of a non-empty sequence.
pub open spec fn seq_min(s: Seq<i64>) -> i64
    recommends
        s.len() > 0,
    decreases s.len(),
{
    if s.len() <= 1 {
        s[0]
    } else if s.last() <= seq_min(s.drop_last()) {
        s.last()
    } else {
        seq_min(s.drop_last())
    }
}

/// The largest element of a non-empty sequence.
pub open spec fn seq_max(s: Seq<i64>) -> i64
    recommends
        s.len() > 0,
    decreases s.len(),
{
    if s.len() <= 1 {
        s[0]
    } else if s.last() >= seq_max(s.drop_last()) {
        s.last()
    } else {
        seq_max(s.drop_last())
    }
}

/// The smallest element is a member and a lower bound; the largest is a
/// member and an upper bound; hence the smallest never exceeds the largest.
pub proof fn lemma_min_max(s: Seq<i64>)
    requires
        s.len() > 0,
    ensures
        s.contains(seq_min(s)),
        s.contains(seq_max(s)),
        forall|k: int| 0 <= k < s.len() ==> seq_min(s) <= #[trigger] s[k] <= seq_max(s),
        seq_min(s) <= seq_max(s),
    decreases s.len(),
{
    if s.len() > 1 {
        lemma_min_max(s.drop_last());
        assert forall|k: int| 0 <= k < s.len() implies seq_min(s) <= #[trigger] s[k] <= seq_max(
            s,
        ) by {
            if k < s.len() - 1 {
                assert(s.drop_last()[k] == s[k]);
            }
        }
        if s.drop_last().contains(seq_min(s)) {
            let i = choose|i: int| 0 <= i < s.drop_last().len() && s.drop_last()[i] == seq_min(s);
            assert(s[i] == seq_min(s));
        }
        if s.drop_last().contains(seq_max(s)) {
            let i = choose|i: int| 0 <= i < s.drop_last().len() && s.drop_last()[i] == seq_max(s);
            assert(s[i] == seq_max(s));
        }
    }
}

/// The elements of a sequence that fall inside the window, in order.
pub open spec fn filter_window(s: Seq<i64>, w: Window) -> Seq<i64>
    decreases s.len(),
{
    if s.len() == 0 {
        Seq::<i64>::empty()
    } else if in_window(w, s.last()) {
        filter_window(s.drop_last(), w).push(s.last())
    } else {
        filter_window(s.drop_last(), w)
    }
}

/// A vertex owned by a shard.
pub struct VertexEntry {
    pub gid: u64,
    pub name: Option<String>,
    pub times: Vec<i64>,
    pub props: TemporalProps,
}

/// How an edge entry relates to the shard that stores it.
#[derive(Clone, Copy, Debug, PartialEq, Eq, Structural)]
pub enum EdgeKind {
    /// Both endpoints live in this shard; the entry is the whole edge.
    Local,
    /// Only the source lives here; the destination is remote.
    OutHalf,
    /// Only the destination lives here; the source is remote.
    InHalf,
}

/// One edge entry: all occurrences of the (src, dst) pair in this shard.
pub struct EdgeEntry {
    pub src: u64,
    pub dst: u64,
    pub kind: EdgeKind,
    pub times: Vec<i64>,
    pub props: TemporalProps,
}

/// One partition of the store.
pub struct Shard {
    pub vertices: Vec<VertexEntry>,
    pub edges: Vec<EdgeEntry>,
}

impl Shard {
    /// The global ids of the vertices, in local-id order.
    pub open spec fn gid_seq(self) -> Seq<u64> {
        self.vertices@.map_values(|v: VertexEntry| v.gid)
    }

    /// The set of global ids owned by this shard.
    pub open spec fn vertex_set(self) -> Set<u64> {
        self.gid_seq().to_set()
    }

    pub open spec fn spec_has_vertex(self, gid: u64) -> bool {
        exists|i: int| 0 <= i < self.vertices@.len() && self.vertices@[i].gid == gid
    }

    /// The local id of `gid`; meaningful only when the vertex is present.
    pub open spec fn vertex_index(self, gid: u64) -> int {
        choose|i: int| 0 <= i < self.vertices@.len() && self.vertices@[i].gid == gid
    }

    pub open spec fn spec_vertex(self, gid: u64) -> VertexEntry {
        self.vertices@[self.vertex_index(gid)]
    }

    pub open spec fn spec_has_edge(self, src: u64, dst: u64) -> bool {
        exists|i: int|
            0 <= i < self.edges@.len() && self.edges@[i].src == src && self.edges@[i].dst == dst
    }

    pub open spec fn edge_index(self, src: u64, dst: u64) -> int {
        choose|i: int|
            0 <= i < self.edges@.len() && self.edges@[i].src == src && self.edges@[i].dst == dst
    }

    pub open spec fn spec_edge(self, src: u64, dst: u64) -> EdgeEntry {
        self.edges@[self.edge_index(src, dst)]
    }

    /// The local endpoint(s) an edge entry of this kind must reference.
    pub open spec fn endpoints_present(self, e: EdgeEntry) -> bool {
        match e.kind {
            EdgeKind::Local => self.spec_has_vertex(e.src) && self.spec_has_vertex(e.dst),
            EdgeKind::OutHalf => self.spec_has_vertex(e.src),
            EdgeKind::InHalf => self.spec_has_vertex(e.dst),
        }
    }

    /// Shard invariant: distinct vertices, one entry per edge pair, every
    /// entity has at least one event, and every edge references its local
    /// endpoint(s).
    pub open spec fn wf(self) -> bool {
        &&& self.gid_seq().no_duplicates()
        &&& forall|i: int|
            0 <= i < self.vertices@.len() ==> (#[trigger] self.vertices@[i]).times@.len() > 0
                && self.vertices@[i].props.wf()
        &&& forall|i: int|
            0 <= i < self.edges@.len() ==> (#[trigger] self.edges@[i]).times@.len() > 0
                && self.edges@[i].props.wf()
        &&& forall|i: int, j: int|
            0 <= i < j < self.edges@.len() ==> !(self.edges@[i].src == self.edges@[j].src
                && self.edges@[i].dst == self.edges@[j].dst)
        &&& forall|i: int|
            0 <= i < self.edges@.len() ==> self.endpoints_present(#[trigger] self.edges@[i])
    }

    pub fn new() -> (r: Self)
        ensures
            r.wf(),
            r.vertices@.len() == 0,
            r.edges@.len() == 0,
            r.vertex_set() =~= Set::<u64>::empty(),
    {
        let r = Shard { vertices: Vec::new(), edges: Vec::new() };
        proof {
            assert(r.gid_seq() =~= Seq::<u64>::empty());
        }
        r
    }

    /// The number of vertices owned by this shard, which, by the shard
    /// invariant, is the number of distinct global ids ever added to it.
    pub fn len(&self) -> (r: usize)
        requires
            self.wf(),
        ensures
            r == self.vertices@.len(),
            r == self.vertex_set().len(),
    {
        proof {
            self.gid_seq().unique_seq_to_set();
        }
        self.vertices.len()
    }

    /// Find the local id of `gid`.
    pub fn find_vertex(&self, gid: u64) -> (r: Option<usize>)
        requires
            self.wf(),
        ensures
            match r {
                Some(i) => i < self.vertices@.len() && self.vertices@[i as int].gid == gid && i
                    as int == self.vertex_index(gid),
                None => !self.spec_has_vertex(gid),
            },
    {
        let mut i: usize = 0;
        while i < self.vertices.len()
            invariant
                self.wf(),
                i <= self.vertices@.len(),
                forall|j: int| 0 <= j < i ==> self.vertices@[j].gid != gid,
            decreases self.vertices@.len() - i,
        {
            if self.vertices[i].gid == gid {
                proof {
                    let c = self.vertex_index(gid);
                    assert(self.gid_seq()[c] == self.vertices@[c].gid);
                    assert(self.gid_seq()[i as int] == gid);
                }
                return Some(i);
            }
            i += 1;
        }
        None
    }

    fn find_edge(&self, src: u64, dst: u64) -> (r: Option<usize>)
        requires
            self.wf(),
        ensures
            match r {
                Some(i) => i < self.edges@.len() && self.edges@[i as int].src == src
                    && self.edges@[i as int].dst == dst && i as int == self.edge_index(src, dst),
                None => !self.spec_has_edge(src, dst),
            },
    {
        let mut i: usize = 0;
        while i < self.edges.len()
            invariant
                self.wf(),
                i <= self.edges@.len(),
                forall|j: int|
                    0 <= j < i ==> !(self.edges@[j].src == src && self.edges@[j].dst == dst),
            decreases self.edges@.len() - i,
        {
            if self.edges[i].src == src && self.edges[i].dst == dst {
                return Some(i);
            }
            i += 1;
        }
        None
    }

    /// Create the vertex on its first event and record the event time.
    fn ensure_vertex(&mut self, gid: u64, t: i64) -> (lid: usize)
        requires
            old(self).wf(),
        ensures
            final(self).wf(),
            final(self).edges@ == old(self).edges@,
            final(self).vertices@.len() == old(self).vertices@.len() + (if old(self).spec_has_vertex(gid) {
                0int
            } else {
                1int
            }),
            lid < final(self).vertices@.len(),
            forall|i: int|
                0 <= i < old(self).vertices@.len() && i != lid ==> final(self).vertices@[i] == old(self).vertices@[i],
            final(self).vertices@[lid as int].gid == gid,
            final(self).vertices@[lid as int].name == (if old(self).spec_has_vertex(gid) {
                old(self).spec_vertex(gid).name
            } else {
                None::<String>
            }),
            final(self).vertices@[lid as int].times@ == (if old(self).spec_has_vertex(gid) {
                old(self).spec_vertex(gid).times@.push(t)
            } else {
                seq![t]
            }),
            old(self).spec_has_vertex(gid) ==> final(self).vertices@[lid as int].props == old(self).spec_vertex(gid).props,
            !old(self).spec_has_vertex(gid) ==> final(self).vertices@[lid as int].props.histories@.len() == 0,
            old(self).spec_has_vertex(gid) ==> lid as int == old(self).vertex_index(gid),
            !old(self).spec_has_vertex(gid) ==> lid as int == old(self).vertices@.len(),
            final(self).vertex_set() =~= old(self).vertex_set().insert(gid),
            lid as int == final(self).vertex_index(gid),
            final(self).spec_has_vertex(gid),
            forall|g: u64| old(self).spec_has_vertex(g) ==> final(self).spec_has_vertex(g),
            forall|g: u64|
                g != gid ==> (final(self).spec_has_vertex(g) == old(self).spec_has_vertex(g) && (
                old(self).spec_has_vertex(g) ==> final(self).vertex_index(g) == old(self).vertex_index(g)
                    && final(self).spec_vertex(g) == old(self).spec_vertex(g))),
    {
        match self.find_vertex(gid) {
            Some(lid) => {
                self.vertices[lid].times.push(t);
                proof {
                    assert(self.gid_seq() =~= old(self).gid_seq());
                    assert(old(self).gid_seq()[lid as int] == gid);
                    assert(self.vertex_set() =~= old(self).vertex_set().insert(gid));
                    assert forall|g: u64| old(self).spec_has_vertex(g) implies self.spec_has_vertex(
                        g,
                    ) by {
                        let w = choose|i: int|
                            0 <= i < old(self).vertices@.len() && old(self).vertices@[i].gid == g;
                        assert(self.vertices@[w].gid == g);
                    }
                    assert(lid as int == self.vertex_index(gid)) by {
                        let c = self.vertex_index(gid);
                        assert(self.gid_seq()[c] == self.vertices@[c].gid);
                        assert(self.gid_seq()[lid as int] == gid);
                    }
                    self.lemma_same_vertices_wf(*old(self));
                    self.lemma_vertex_gid_frame(*old(self), lid as int, gid);
                }
                lid
            },
            None => {
                let lid = self.vertices.len();
                let mut times: Vec<i64> = Vec::new();
                times.push(t);
                self.vertices.push(
                    VertexEntry { gid, name: None, times, props: TemporalProps::new() },
                );
                proof {
                    assert(self.gid_seq() =~= old(self).gid_seq().push(gid));
                    assert(self.gid_seq().no_duplicates()) by {
                        assert(forall|j: int|
                            0 <= j < old(self).gid_seq().len() ==> old(self).gid_seq()[j] != gid);
                    }
                    lemma_to_set_push(old(self).gid_seq(), gid);
                    assert(self.vertex_set() =~= old(self).vertex_set().insert(gid));
                    assert forall|g: u64| old(self).spec_has_vertex(g) implies self.spec_has_vertex(
                        g,
                    ) by {
                        let w = choose|i: int|
                            0 <= i < old(self).vertices@.len() && old(self).vertices@[i].gid == g;
                        assert(self.vertices@[w].gid == g);
                    }
                    assert(self.vertices@[lid as int].times@ =~= seq![t]);
                    assert(lid as int == self.vertex_index(gid)) by {
                        let c = self.vertex_index(gid);
                        assert(self.gid_seq()[c] == self.vertices@[c].gid);
                    }
                    self.lemma_same_vertices_wf(*old(self));
                    self.lemma_vertex_gid_frame(*old(self), lid as int, gid);
                }
                lid
            },
        }
    }

    /// The shard invariant survives any change that keeps the edge table and
    /// extends or rewrites the vertex table without dropping a vertex, losing
    /// an event, breaking a property store, or duplicating a gid.
    proof fn lemma_same_vertices_wf(self, pre: Shard)
        requires
            pre.wf(),
            self.edges@ == pre.edges@,
            self.gid_seq().no_duplicates(),
            forall|i: int|
                0 <= i < self.vertices@.len() ==> (#[trigger] self.vertices@[i]).times@.len() > 0
                    && self.vertices@[i].props.wf(),
            forall|g: u64| pre.spec_has_vertex(g) ==> self.spec_has_vertex(g),
        ensures
            self.wf(),
    {
        assert forall|i: int| 0 <= i < self.edges@.len() implies self.endpoints_present(
            #[trigger] self.edges@[i],
        ) by {
            assert(pre.endpoints_present(pre.edges@[i]));
        }
    }

    /// A change that touches only the entry of `gid` (rewriting it in place
    /// or appending it) leaves every other vertex exactly as it was.
    proof fn lemma_vertex_gid_frame(self, pre: Shard, lid: int, gid: u64)
        requires
            pre.wf(),
            self.wf(),
            0 <= lid < self.vertices@.len(),
            lid <= pre.vertices@.len(),
            forall|i: int|
                0 <= i < pre.vertices@.len() && i != lid ==> self.vertices@[i]
                    == pre.vertices@[i],
            self.vertices@[lid].gid == gid,
            lid < pre.vertices@.len() ==> self.vertices@.len() == pre.vertices@.len()
                && pre.vertices@[lid].gid == gid,
            lid == pre.vertices@.len() ==> self.vertices@.len() == pre.vertices@.len() + 1,
        ensures
            forall|g: u64|
                g != gid ==> (self.spec_has_vertex(g) == pre.spec_has_vertex(g) && (
                pre.spec_has_vertex(g) ==> self.vertex_index(g) == pre.vertex_index(g)
                    && self.spec_vertex(g) == pre.spec_vertex(g))),
    {
        assert forall|g: u64| g != gid implies (self.spec_has_vertex(g) == pre.spec_has_vertex(g)
            && (pre.spec_has_vertex(g) ==> self.vertex_index(g) == pre.vertex_index(g)
            && self.spec_vertex(g) == pre.spec_vertex(g))) by {
            if pre.spec_has_vertex(g) {
                let i = pre.vertex_index(g);
                assert(pre.vertices@[i].gid == g);
                assert(i != lid);
                assert(self.vertices@[i] == pre.vertices@[i]);
                assert(self.spec_has_vertex(g));
                let c = self.vertex_index(g);
                if c != i {
                    assert(self.gid_seq()[c] == self.vertices@[c].gid);
                    assert(self.gid_seq()[i] == self.vertices@[i].gid);
                }
            }
            if self.spec_has_vertex(g) {
                let c = self.vertex_index(g);
                assert(self.vertices@[c].gid == g);
                assert(c != lid);
                assert(c < pre.vertices@.len());
                assert(pre.vertices@[c].gid == g);
            }
        }
    }

    /// Two states with the same vertex table agree on every vertex lookup.
    proof fn lemma_same_vertex_table(self, pre: Shard)
        requires
            self.vertices@ == pre.vertices@,
            pre.gid_seq().no_duplicates(),
        ensures
            forall|g: u64|
                #[trigger] self.spec_has_vertex(g) == pre.spec_has_vertex(g) && (
                pre.spec_has_vertex(g) ==> self.vertex_index(g) == pre.vertex_index(g)
                    && self.spec_vertex(g) == pre.spec_vertex(g)),
    {
        assert forall|g: u64|
            #[trigger] self.spec_has_vertex(g) == pre.spec_has_vertex(g) && (pre.spec_has_vertex(
            g,
        ) ==> self.vertex_index(g) == pre.vertex_index(g) && self.spec_vertex(g)
            == pre.spec_vertex(g)) by {
            if pre.spec_has_vertex(g) {
                let i = pre.vertex_index(g);
                assert(self.vertices@[i].gid == g);
                let c = self.vertex_index(g);
                if c != i {
                    assert(pre.gid_seq()[c] == pre.vertices@[c].gid);
                    assert(pre.gid_seq()[i] == pre.vertices@[i].gid);
                }
            }
            if self.spec_has_vertex(g) {
                let c = self.vertex_index(g);
                assert(pre.vertices@[c].gid == g);
            }
        }
    }

    /// Add a vertex event: create the vertex if it is new, record the event
    /// time, and append the given properties at that time.
    pub fn add_vertex(&mut self, gid: u64, t: i64, props: &Vec<(String, Prop)>)
        requires
            old(self).wf(),
        ensures
            final(self).wf(),
            final(self).edges@ == old(self).edges@,
            final(self).vertex_set() =~= old(self).vertex_set().insert(gid),
            final(self).vertices@.len() == old(self).vertices@.len() + (if old(self).spec_has_vertex(gid) {
                0int
            } else {
                1int
            }),
            forall|i: int|
                0 <= i < old(self).vertices@.len() && i != final(self).vertex_index(gid) ==> final(self).vertices@[i] == old(self).vertices@[i],
            final(self).spec_vertex(gid).times@ == (if old(self).spec_has_vertex(gid) {
                old(self).spec_vertex(gid).times@.push(t)
            } else {
                seq![t]
            }),
            final(self).spec_vertex(gid).props.as_map() == apply_props(
                if old(self).spec_has_vertex(gid) {
                    old(self).spec_vertex(gid).props.as_map()
                } else {
                    Map::<Seq<char>, Seq<(i64, Prop)>>::empty()
                },
                t,
                props@,
            ),
            forall|g: u64| old(self).spec_has_vertex(g) ==> final(self).spec_has_vertex(g),
            final(self).spec_has_vertex(gid),
            old(self).spec_has_vertex(gid) ==> final(self).spec_vertex(gid).name == old(self).spec_vertex(gid).name,
            !old(self).spec_has_vertex(gid) ==> final(self).spec_vertex(gid).name is None,
            forall|g: u64|
                g != gid ==> (final(self).spec_has_vertex(g) == old(self).spec_has_vertex(g) && (
                old(self).spec_has_vertex(g) ==> final(self).spec_vertex(g) == old(self).spec_vertex(g))),
    {
        let lid = self.ensure_vertex(gid, t);
        let ghost mid = *self;
        let entry = &mut self.vertices[lid];
        entry.props.append_all(t, props);
        proof {
            assert(self.vertices@ =~= mid.vertices@.update(
                lid as int,
                self.vertices@[lid as int],
            ));
            assert(self.gid_seq() =~= mid.gid_seq());
            assert(self.vertices@[lid as int].gid == gid);
            assert(lid as int == self.vertex_index(gid)) by {
                let c = self.vertex_index(gid);
                assert(self.gid_seq()[c] == self.vertices@[c].gid);
                assert(self.gid_seq()[lid as int] == gid);
            }
            if !old(self).spec_has_vertex(gid) {
                assert(mid.vertices@[lid as int].props.as_map() =~= Map::<
                    Seq<char>,
                    Seq<(i64, Prop)>,
                >::empty());
            }
            assert forall|g: u64| mid.spec_has_vertex(g) implies self.spec_has_vertex(g) by {
                let w = choose|i: int|
                    0 <= i < mid.vertices@.len() && mid.vertices@[i].gid == g;
                assert(self.vertices@[w].gid == g);
            }
            self.lemma_same_vertices_wf(mid);
            assert(self.vertex_set() =~= mid.vertex_set());
            self.lemma_vertex_gid_frame(mid, lid as int, gid);
        }
    }
}

/// Is this entry a logical edge (counted once, in its source's shard) with
/// an event inside the window?
pub open spec fn edge_logical_in(e: EdgeEntry, w: Window) -> bool {
    e.kind != EdgeKind::InHalf && has_event_in(e.times@, w)
}

/// How many entries of `edges` are logical edges with an event in `w`.
pub open spec fn count_logical(edges: Seq<EdgeEntry>, w: Window) -> int
    decreases edges.len(),
{
    if edges.len() == 0 {
        0
    } else {
        count_logical(edges.drop_last(), w) + if edge_logical_in(edges.last(), w) {
            1int
        } else {
            0int
        }
    }
}

/// The (src, dst) pairs of the logical edges of `edges` with an event in `w`.
pub open spec fn logical_pair_set(edges: Seq<EdgeEntry>, w: Window) -> Set<(u64, u64)> {
    Set::new(
        |p: (u64, u64)|
            exists|i: int|
                0 <= i < edges.len() && (#[trigger] edges[i]).src == p.0 && edges[i].dst == p.1
                    && edge_logical_in(edges[i], w),
    )
}

/// With one entry per (src, dst) pair, counting logical entries counts the
/// distinct logical pairs.
pub proof fn lemma_count_logical_is_pairs(edges: Seq<EdgeEntry>, w: Window)
    requires
        forall|i: int, j: int|
            0 <= i < j < edges.len() ==> !(edges[i].src == edges[j].src && edges[i].dst
                == edges[j].dst),
    ensures
        logical_pair_set(edges, w).finite(),
        count_logical(edges, w) == logical_pair_set(edges, w).len(),
    decreases edges.len(),
{
    if edges.len() == 0 {
        assert(logical_pair_set(edges, w) =~= Set::<(u64, u64)>::empty());
    } else {
        let rest = edges.drop_last();
        let e = edges.last();
        lemma_count_logical_is_pairs(rest, w);
        if edge_logical_in(e, w) {
            assert forall|p: (u64, u64)| logical_pair_set(edges, w).contains(p) implies
                logical_pair_set(rest, w).insert((e.src, e.dst)).contains(p) by {
                let i = choose|i: int|
                    0 <= i < edges.len() && (#[trigger] edges[i]).src == p.0 && edges[i].dst == p.1
                        && edge_logical_in(edges[i], w);
                if i < rest.len() {
                    assert(rest[i] == edges[i]);
                }
            }
            assert forall|p: (u64, u64)|
                logical_pair_set(rest, w).insert((e.src, e.dst)).contains(p) implies
                logical_pair_set(edges, w).contains(p) by {
                if p == (e.src, e.dst) {
                    assert(edges[edges.len() - 1].src == p.0 && edges[edges.len() - 1].dst == p.1
                        && edge_logical_in(edges[edges.len() - 1], w));
                } else {
                    let i = choose|i: int|
                        0 <= i < rest.len() && (#[trigger] rest[i]).src == p.0 && rest[i].dst
                            == p.1 && edge_logical_in(rest[i], w);
                    assert(edges[i].src == p.0 && edges[i].dst == p.1 && edge_logical_in(
                        edges[i],
                        w,
                    ));
                }
            }
            assert(logical_pair_set(edges, w) =~= logical_pair_set(rest, w).insert(
                (e.src, e.dst),
            ));
            assert(!logical_pair_set(rest, w).contains((e.src, e.dst))) by {
                if logical_pair_set(rest, w).contains((e.src, e.dst)) {
                    let i = choose|i: int|
                        0 <= i < rest.len() && (#[trigger] rest[i]).src == e.src && rest[i].dst
                            == e.dst && edge_logical_in(rest[i], w);
                    assert(edges[i].src == edges[edges.len() - 1].src);
                }
            }
        } else {
            assert forall|p: (u64, u64)| logical_pair_set(edges, w).contains(p) implies
                logical_pair_set(rest, w).contains(p) by {
                let i = choose|i: int|
                    0 <= i < edges.len() && (#[trigger] edges[i]).src == p.0 && edges[i].dst == p.1
                        && edge_logical_in(edges[i], w);
                assert(i < rest.len());
                assert(rest[i].src == p.0 && rest[i].dst == p.1 && edge_logical_in(rest[i], w));
            }
            assert forall|p: (u64, u64)| logical_pair_set(rest, w).contains(p) implies
                logical_pair_set(edges, w).contains(p) by {
                let i = choose|i: int|
                    0 <= i < rest.len() && (#[trigger] rest[i]).src == p.0 && rest[i].dst == p.1
                        && edge_logical_in(rest[i], w);
                assert(edges[i].src == p.0 && edges[i].dst == p.1 && edge_logical_in(edges[i], w));
            }
            assert(logical_pair_set(edges, w) =~= logical_pair_set(rest, w));
        }
    }
}

impl Shard {
    /// The logical edges of this shard (local edges and out half-edges) that
    /// have an event inside the window.
    pub open spec fn spec_logical_pairs(self, w: Window) -> Set<(u64, u64)> {
        logical_pair_set(self.edges@, w)
    }

    /// Count the logical edges with an event inside the window. Into
    /// half-edges are skipped: the source's shard counts each cross-shard
    /// edge.
    pub fn count_edges(&self, w: Window) -> (r: usize)
        requires
            self.wf(),
        ensures
            r == self.spec_logical_pairs(w).len(),
            self.spec_logical_pairs(w).finite(),
    {
        proof {
            lemma_count_logical_is_pairs(self.edges@, w);
            assert(self.edges@.subrange(0, 0) =~= Seq::<EdgeEntry>::empty());
        }
        let mut r: usize = 0;
        let mut i: usize = 0;
        while i < self.edges.len()
            invariant
                self.wf(),
                i <= self.edges@.len(),
                r <= i,
                r == count_logical(self.edges@.subrange(0, i as int), w),
            decreases self.edges@.len() - i,
        {
            proof {
                assert(self.edges@.subrange(0, i + 1).drop_last() =~= self.edges@.subrange(
                    0,
                    i as int,
                ));
                assert(self.edges@.subrange(0, i + 1).last() == self.edges@[i as int]);
            }
            let e = &self.edges[i];
            let is_logical = match e.kind {
                EdgeKind::InHalf => false,
                _ => true,
            };
            if is_logical && any_event_in(&e.times, w) {
                r += 1;
            }
            i += 1;
        }
        proof {
            assert(self.edges@.subrange(0, self.edges@.len() as int) =~= self.edges@);
        }
        r
    }

    /// Record an occurrence of the edge (src, dst): create the entry with the
    /// given kind on first sight, append the event time, and append the
    /// properties. The endpoints the kind requires must already be present,
    /// and the kind of an existing entry never changes.
    fn upsert_edge(&mut self, src: u64, dst: u64, t: i64, props: &Vec<(String, Prop)>, kind: EdgeKind)
        requires
            old(self).wf(),
            old(self).spec_has_edge(src, dst) ==> old(self).spec_edge(src, dst).kind == kind,
            match kind {
                EdgeKind::Local => old(self).spec_has_vertex(src) && old(self).spec_has_vertex(
                    dst,
                ),
                EdgeKind::OutHalf => old(self).spec_has_vertex(src),
                EdgeKind::InHalf => old(self).spec_has_vertex(dst),
            },
        ensures
            final(self).wf(),
            final(self).vertices@ == old(self).vertices@,
            final(self).spec_has_edge(src, dst),
            final(self).spec_edge(src, dst).src == src,
            final(self).spec_edge(src, dst).dst == dst,
            final(self).spec_edge(src, dst).kind == kind,
            final(self).spec_edge(src, dst).times@ == (if old(self).spec_has_edge(src, dst) {
                old(self).spec_edge(src, dst).times@.push(t)
            } else {
                seq![t]
            }),
            final(self).spec_edge(src, dst).props.as_map() == apply_props(
                if old(self).spec_has_edge(src, dst) {
                    old(self).spec_edge(src, dst).props.as_map()
                } else {
                    Map::<Seq<char>, Seq<(i64, Prop)>>::empty()
                },
                t,
                props@,
            ),
            old(self).spec_has_edge(src, dst) ==> final(self).edges@.len() == old(self).edges@.len() && forall|i: int|
                0 <= i < old(self).edges@.len() && i != old(self).edge_index(src, dst)
                    ==> final(self).edges@[i] == old(self).edges@[i],
            !old(self).spec_has_edge(src, dst) ==> final(self).edges@.len() == old(self).edges@.len() + 1 && forall|i: int|
                0 <= i < old(self).edges@.len() ==> final(self).edges@[i] == old(self).edges@[i],
            old(self).spec_has_edge(src, dst) ==> final(self).edge_index(src, dst) == old(self).edge_index(src, dst),
            !old(self).spec_has_edge(src, dst) ==> final(self).edge_index(src, dst) == old(self).edges@.len(),
    {
        match self.find_edge(src, dst) {
            Some(i) => {
                let ghost pre = *self;
                self.edges[i].times.push(t);
                let entry = &mut self.edges[i];
                entry.props.append_all(t, props);
                proof {
                    assert(self.edges@[i as int].src == src && self.edges@[i as int].dst == dst);
                    assert(i as int == self.edge_index(src, dst)) by {
                        let c = self.edge_index(src, dst);
                        if c != i {
                            assert(!(self.edges@[c].src == self.edges@[i as int].src
                                && self.edges@[c].dst == self.edges@[i as int].dst));
                        }
                    }
                    assert(self.edges@[i as int].times@ =~= pre.edges@[i as int].times@.push(t));
                    assert forall|j: int| 0 <= j < self.edges@.len() implies
                        self.endpoints_present(#[trigger] self.edges@[j]) by {
                        assert(old(self).endpoints_present(old(self).edges@[j]));
                        assert(self.edges@[j].kind == old(self).edges@[j].kind);
                        assert(self.edges@[j].src == old(self).edges@[j].src);
                        assert(self.edges@[j].dst == old(self).edges@[j].dst);
                    }
                }
            },
            None => {
                let mut times: Vec<i64> = Vec::new();
                times.push(t);
                let mut ep = TemporalProps::new();
                proof {
                    assert(ep.as_map() =~= Map::<Seq<char>, Seq<(i64, Prop)>>::empty());
                }
                ep.append_all(t, props);
                self.edges.push(EdgeEntry { src, dst, kind, times, props: ep });
                proof {
                    let n = old(self).edges@.len() as int;
                    assert(self.edges@[n].src == src && self.edges@[n].dst == dst);
                    assert(n == self.edge_index(src, dst)) by {
                        let c = self.edge_index(src, dst);
                        if c != n {
                            assert(!(self.edges@[c].src == self.edges@[n].src && self.edges@[c].dst
                                == self.edges@[n].dst));
                        }
                    }
                    assert(self.edges@[n].times@ =~= seq![t]);
                    assert(self.edges@[n].props.as_map() == apply_props(
                        Map::<Seq<char>, Seq<(i64, Prop)>>::empty(),
                        t,
                        props@,
                    )) by {
                        assert(ep.as_map() == apply_props(
                            Map::<Seq<char>, Seq<(i64, Prop)>>::empty(),
                            t,
                            props@,
                        ));
                    }
                    assert forall|j: int| 0 <= j < self.edges@.len() implies
                        self.endpoints_present(#[trigger] self.edges@[j]) by {
                        if j < n {
                            assert(old(self).endpoints_present(old(self).edges@[j]));
                        }
                    }
                }
            },
        }
    }

    /// Record an occurrence of an edge whose endpoints both live in this
    /// shard. Both endpoints are created if needed and both receive the
    /// event time.
    pub fn add_edge_local(&mut self, src: u64, dst: u64, t: i64, props: &Vec<(String, Prop)>)
        requires
            old(self).wf(),
            old(self).spec_has_edge(src, dst) ==> old(self).spec_edge(src, dst).kind
                == EdgeKind::Local,
        ensures
            final(self).wf(),
            final(self).vertex_set() =~= old(self).vertex_set().insert(src).insert(dst),
            final(self).spec_has_edge(src, dst),
            final(self).spec_edge(src, dst).kind == EdgeKind::Local,
            final(self).spec_edge(src, dst).times@ == (if old(self).spec_has_edge(src, dst) {
                old(self).spec_edge(src, dst).times@.push(t)
            } else {
                seq![t]
            }),
            final(self).spec_edge(src, dst).props.as_map() == apply_props(
                if old(self).spec_has_edge(src, dst) {
                    old(self).spec_edge(src, dst).props.as_map()
                } else {
                    Map::<Seq<char>, Seq<(i64, Prop)>>::empty()
                },
                t,
                props@,
            ),
            forall|a: u64, b: u64|
                !(a == src && b == dst) ==> (final(self).spec_has_edge(a, b) == old(self).spec_has_edge(a, b) && (old(self).spec_has_edge(a, b) ==> final(self).spec_edge(
                    a,
                    b,
                ) == old(self).spec_edge(a, b))),
            !old(self).spec_has_edge(src, dst) ==> final(self).edges@.len() == old(self).edges@.len() + 1,
            old(self).spec_has_edge(src, dst) ==> final(self).edges@.len() == old(self).edges@.len(),
            final(self).spec_vertex(src).times@ == (if old(self).spec_has_vertex(src) {
                old(self).spec_vertex(src).times@.push(t)
            } else {
                seq![t]
            }),
            old(self).spec_has_vertex(src) ==> final(self).spec_vertex(src).name == old(self).spec_vertex(src).name
                && final(self).spec_vertex(src).props == old(self).spec_vertex(src).props,
            !old(self).spec_has_vertex(src) ==> final(self).spec_vertex(src).name is None
                && final(self).spec_vertex(src).props.histories@.len() == 0,
            dst != src ==> final(self).spec_vertex(dst).times@ == (if old(self).spec_has_vertex(dst) {
                old(self).spec_vertex(dst).times@.push(t)
            } else {
                seq![t]
            }),
            dst != src && old(self).spec_has_vertex(dst) ==> final(self).spec_vertex(dst).name == old(self).spec_vertex(dst).name
                && final(self).spec_vertex(dst).props == old(self).spec_vertex(dst).props,
            dst != src && !old(self).spec_has_vertex(dst) ==> final(self).spec_vertex(dst).name is None
                && final(self).spec_vertex(dst).props.histories@.len() == 0,
            forall|g: u64|
                g != src && g != dst ==> (final(self).spec_has_vertex(g) == old(self).spec_has_vertex(g)
                    && (old(self).spec_has_vertex(g) ==> final(self).spec_vertex(g) == old(self).spec_vertex(g))),
        {
        self.ensure_vertex(src, t);
        let ghost m1 = *self;
        if dst != src {
            self.ensure_vertex(dst, t);
        }
        let ghost mid = *self;
        self.upsert_edge(src, dst, t, props, EdgeKind::Local);
        proof {
            self.lemma_edge_frame(mid, src, dst);
            assert(self.vertex_set() =~= old(self).vertex_set().insert(src).insert(dst));
            self.lemma_same_vertex_table(mid);
            if dst != src {
                assert(m1.spec_has_vertex(dst) == old(self).spec_has_vertex(dst));
                assert(old(self).spec_has_vertex(dst) ==> m1.spec_vertex(dst) == old(self).spec_vertex(dst));
                assert(mid.spec_vertex(src) == m1.spec_vertex(src));
            }
        }
    }

    /// Record an occurrence of an out half-edge: the source lives here, the
    /// destination is remote and only named by its gid.
    pub fn add_edge_out_half(&mut self, src: u64, dst: u64, t: i64, props: &Vec<(String, Prop)>)
        requires
            old(self).wf(),
            old(self).spec_has_edge(src, dst) ==> old(self).spec_edge(src, dst).kind
                == EdgeKind::OutHalf,
        ensures
            final(self).wf(),
            final(self).vertex_set() =~= old(self).vertex_set().insert(src),
            final(self).spec_has_edge(src, dst),
            final(self).spec_edge(src, dst).kind == EdgeKind::OutHalf,
            final(self).spec_edge(src, dst).times@ == (if old(self).spec_has_edge(src, dst) {
                old(self).spec_edge(src, dst).times@.push(t)
            } else {
                seq![t]
            }),
            final(self).spec_edge(src, dst).props.as_map() == apply_props(
                if old(self).spec_has_edge(src, dst) {
                    old(self).spec_edge(src, dst).props.as_map()
                } else {
                    Map::<Seq<char>, Seq<(i64, Prop)>>::empty()
                },
                t,
                props@,
            ),
            forall|a: u64, b: u64|
                !(a == src && b == dst) ==> (final(self).spec_has_edge(a, b) == old(self).spec_has_edge(a, b) && (old(self).spec_has_edge(a, b) ==> final(self).spec_edge(
                    a,
                    b,
                ) == old(self).spec_edge(a, b))),
            !old(self).spec_has_edge(src, dst) ==> final(self).edges@.len() == old(self).edges@.len() + 1,
            old(self).spec_has_edge(src, dst) ==> final(self).edges@.len() == old(self).edges@.len(),
            final(self).spec_vertex(src).times@ == (if old(self).spec_has_vertex(src) {
                old(self).spec_vertex(src).times@.push(t)
            } else {
                seq![t]
            }),
            old(self).spec_has_vertex(src) ==> final(self).spec_vertex(src).name == old(self).spec_vertex(src).name
                && final(self).spec_vertex(src).props == old(self).spec_vertex(src).props,
            !old(self).spec_has_vertex(src) ==> final(self).spec_vertex(src).name is None
                && final(self).spec_vertex(src).props.histories@.len() == 0,
            forall|g: u64|
                g != src ==> (final(self).spec_has_vertex(g) == old(self).spec_has_vertex(g)
                    && (old(self).spec_has_vertex(g) ==> final(self).spec_vertex(g) == old(self).spec_vertex(g))),
        {
        self.ensure_vertex(src, t);
        let ghost mid = *self;
        self.upsert_edge(src, dst, t, props, EdgeKind::OutHalf);
        proof {
            self.lemma_edge_frame(mid, src, dst);
            assert(self.vertex_set() =~= old(self).vertex_set().insert(src));
            self.lemma_same_vertex_table(mid);
        }
    }

    /// Record an occurrence of an into half-edge: the destination lives
    /// here, the source is remote and only named by its gid.
    pub fn add_edge_in_half(&mut self, src: u64, dst: u64, t: i64, props: &Vec<(String, Prop)>)
        requires
            old(self).wf(),
            old(self).spec_has_edge(src, dst) ==> old(self).spec_edge(src, dst).kind
                == EdgeKind::InHalf,
        ensures
            final(self).wf(),
            final(self).vertex_set() =~= old(self).vertex_set().insert(dst),
            final(self).spec_has_edge(src, dst),
            final(self).spec_edge(src, dst).kind == EdgeKind::InHalf,
            final(self).spec_edge(src, dst).times@ == (if old(self).spec_has_edge(src, dst) {
                old(self).spec_edge(src, dst).times@.push(t)
            } else {
                seq![t]
            }),
            final(self).spec_edge(src, dst).props.as_map() == apply_props(
                if old(self).spec_has_edge(src, dst) {
                    old(self).spec_edge(src, dst).props.as_map()
                } else {
                    Map::<Seq<char>, Seq<(i64, Prop)>>::empty()
                },
                t,
                props@,
            ),
            forall|a: u64, b: u64|
                !(a == src && b == dst) ==> (final(self).spec_has_edge(a, b) == old(self).spec_has_edge(a, b) && (old(self).spec_has_edge(a, b) ==> final(self).spec_edge(
                    a,
                    b,
                ) == old(self).spec_edge(a, b))),
            !old(self).spec_has_edge(src, dst) ==> final(self).edges@.len() == old(self).edges@.len() + 1,
            old(self).spec_has_edge(src, dst) ==> final(self).edges@.len() == old(self).edges@.len(),
            final(self).spec_vertex(dst).times@ == (if old(self).spec_has_vertex(dst) {
                old(self).spec_vertex(dst).times@.push(t)
            } else {
                seq![t]
            }),
            old(self).spec_has_vertex(dst) ==> final(self).spec_vertex(dst).name == old(self).spec_vertex(dst).name
                && final(self).spec_vertex(dst).props == old(self).spec_vertex(dst).props,
            !old(self).spec_has_vertex(dst) ==> final(self).spec_vertex(dst).name is None
                && final(self).spec_vertex(dst).props.histories@.len() == 0,
            forall|g: u64|
                g != dst ==> (final(self).spec_has_vertex(g) == old(self).spec_has_vertex(g)
                    && (old(self).spec_has_vertex(g) ==> final(self).spec_vertex(g) == old(self).spec_vertex(g))),
        {
        self.ensure_vertex(dst, t);
        let ghost mid = *self;
        self.upsert_edge(src, dst, t, props, EdgeKind::InHalf);
        proof {
            self.lemma_edge_frame(mid, src, dst);
            assert(self.vertex_set() =~= old(self).vertex_set().insert(dst));
            self.lemma_same_vertex_table(mid);
        }
    }

    /// Edges other than (src, dst) are untouched by an upsert of (src, dst).
    proof fn lemma_edge_frame(self, pre: Shard, src: u64, dst: u64)
        requires
            pre.wf(),
            self.wf(),
            pre.spec_has_edge(src, dst) ==> self.edges@.len() == pre.edges@.len() && forall|i: int|
                0 <= i < pre.edges@.len() && i != pre.edge_index(src, dst) ==> self.edges@[i]
                    == pre.edges@[i],
            pre.spec_has_edge(src, dst) ==> self.edge_index(src, dst) == pre.edge_index(src, dst)
                && self.spec_has_edge(src, dst),
            !pre.spec_has_edge(src, dst) ==> self.edges@.len() == pre.edges@.len() + 1 && forall|
                i: int,
            |
                0 <= i < pre.edges@.len() ==> self.edges@[i] == pre.edges@[i],
            pre.spec_has_edge(src, dst) ==> self.edges@[pre.edge_index(src, dst)].src == src
                && self.edges@[pre.edge_index(src, dst)].dst == dst,
            !pre.spec_has_edge(src, dst) ==> self.edges@[pre.edges@.len() as int].src == src
                && self.edges@[pre.edges@.len() as int].dst == dst,
        ensures
            forall|a: u64, b: u64|
                !(a == src && b == dst) ==> (self.spec_has_edge(a, b) == pre.spec_has_edge(a, b)
                    && (pre.spec_has_edge(a, b) ==> self.spec_edge(a, b) == pre.spec_edge(a, b))),
    {
        assert forall|a: u64, b: u64| !(a == src && b == dst) implies (self.spec_has_edge(a, b)
            == pre.spec_has_edge(a, b) && (pre.spec_has_edge(a, b) ==> self.spec_edge(a, b)
            == pre.spec_edge(a, b))) by {
            if pre.spec_has_edge(a, b) {
                let i = pre.edge_index(a, b);
                assert(pre.edges@[i].src == a && pre.edges@[i].dst == b);
                if pre.spec_has_edge(src, dst) && i == pre.edge_index(src, dst) {
                    assert(pre.edges@[pre.edge_index(src, dst)].src == src);
                }
                assert(self.edges@[i] == pre.edges@[i]);
                assert(self.spec_has_edge(a, b));
                let c = self.edge_index(a, b);
                if c != i {
                    assert(!(self.edges@[c].src == self.edges@[i].src && self.edges@[c].dst
                        == self.edges@[i].dst));
                }
            }
            if self.spec_has_edge(a, b) {
                let i = self.edge_index(a, b);
                assert(self.edges@[i].src == a && self.edges@[i].dst == b);
                if i < pre.edges@.len() {
                    if pre.spec_has_edge(src, dst) && i == pre.edge_index(src, dst) {
                        assert(self.edges@[i].src == src && self.edges@[i].dst == dst);
                    } else {
                        assert(pre.edges@[i].src == a && pre.edges@[i].dst == b);
                    }
                } else {
                    assert(!pre.spec_has_edge(src, dst));
                    assert(self.edges@[i].src == src && self.edges@[i].dst == dst);
                }
            }
        }
    }
}

/// Does edge entry `e` connect `gid` to `u` in direction `dir` with an event
/// inside the window?
pub open spec fn edge_touches(e: EdgeEntry, gid: u64, u: u64, dir: Direction, w: Window) -> bool {
    has_event_in(e.times@, w) && match dir {
        Direction::Out => e.src == gid && e.dst == u,
        Direction::In => e.dst == gid && e.src == u,
        Direction::Both => (e.src == gid && e.dst == u) || (e.dst == gid && e.src == u),
    }
}

fn vec_contains_u64(v: &Vec<u64>, x: u64) -> (r: bool)
    ensures
        r == v@.contains(x),
{
    let mut i: usize = 0;
    while i < v.len()
        invariant
            i <= v@.len(),
            forall|j: int| 0 <= j < i ==> v@[j] != x,
        decreases v@.len() - i,
    {
        if v[i] == x {
            return true;
        }
        i += 1;
    }
    false
}

fn push_unique(v: &mut Vec<u64>, x: u64)
    requires
        old(v)@.no_duplicates(),
    ensures
        final(v)@.no_duplicates(),
        final(v)@.to_set() == old(v)@.to_set().insert(x),
{
    if !vec_contains_u64(v, x) {
        v.push(x);
        proof {
            lemma_to_set_push(old(v)@, x);
        }
    } else {
        proof {
            assert(v@.to_set() =~= v@.to_set().insert(x));
        }
    }
}

impl Shard {
    /// The distinct neighbours of `gid` along `dir` that share at least one
    /// edge event inside the window.
    pub open spec fn neighbour_set(self, gid: u64, dir: Direction, w: Window) -> Set<u64> {
        Set::new(
            |u: u64|
                exists|i: int|
                    0 <= i < self.edges@.len() && edge_touches(
                        #[trigger] self.edges@[i],
                        gid,
                        u,
                        dir,
                        w,
                    ),
        )
    }

    /// As `neighbour_set`, over only the first `n` edge entries.
    pub open spec fn neighbour_set_upto(self, gid: u64, dir: Direction, w: Window, n: int) -> Set<
        u64,
    > {
        Set::new(
            |u: u64|
                exists|i: int|
                    0 <= i < n && i < self.edges@.len() && edge_touches(
                        #[trigger] self.edges@[i],
                        gid,
                        u,
                        dir,
                        w,
                    ),
        )
    }

    /// The distinct neighbours of `gid` along `dir` with an edge event in the
    /// window, each exactly once.
    pub fn neighbours(&self, gid: u64, dir: Direction, w: Window) -> (r: Vec<u64>)
        requires
            self.wf(),
        ensures
            r@.no_duplicates(),
            r@.to_set() == self.neighbour_set(gid, dir, w),
    {
        let mut r: Vec<u64> = Vec::new();
        let mut i: usize = 0;
        proof {
            assert(r@.to_set() =~= self.neighbour_set_upto(gid, dir, w, 0));
        }
        while i < self.edges.len()
            invariant
                self.wf(),
                i <= self.edges@.len(),
                r@.no_duplicates(),
                r@.to_set() == self.neighbour_set_upto(gid, dir, w, i as int),
            decreases self.edges@.len() - i,
        {
            let e = &self.edges[i];
            let ghost pre = r@.to_set();
            let has_ev = any_event_in(&e.times, w);
            let mut out_cand = false;
            let mut in_cand = false;
            if has_ev {
                match dir {
                    Direction::Out => {
                        out_cand = e.src == gid;
                    },
                    Direction::In => {
                        in_cand = e.dst == gid;
                    },
                    Direction::Both => {
                        out_cand = e.src == gid;
                        in_cand = e.dst == gid;
                    },
                }
            }
            let dst = e.dst;
            let src = e.src;
            if out_cand {
                push_unique(&mut r, dst);
            }
            if in_cand {
                push_unique(&mut r, src);
            }
            proof {
                let ghost post = if out_cand && in_cand {
                    pre.insert(dst).insert(src)
                } else if out_cand {
                    pre.insert(dst)
                } else if in_cand {
                    pre.insert(src)
                } else {
                    pre
                };
                assert(r@.to_set() == post);
                assert forall|u: u64| self.neighbour_set_upto(gid, dir, w, i + 1).contains(
                    u,
                ) implies post.contains(u) by {
                    let j = choose|j: int|
                        0 <= j < i + 1 && j < self.edges@.len() && edge_touches(
                            #[trigger] self.edges@[j],
                            gid,
                            u,
                            dir,
                            w,
                        );
                    if j < i {
                        assert(pre.contains(u));
                    }
                }
                assert forall|u: u64| post.contains(u) implies self.neighbour_set_upto(
                    gid,
                    dir,
                    w,
                    i + 1,
                ).contains(u) by {
                    if pre.contains(u) {
                        let j = choose|j: int|
                            0 <= j < i && j < self.edges@.len() && edge_touches(
                                #[trigger] self.edges@[j],
                                gid,
                                u,
                                dir,
                                w,
                            );
                        assert(edge_touches(self.edges@[j], gid, u, dir, w));
                    } else {
                        assert(edge_touches(self.edges@[i as int], gid, u, dir, w));
                    }
                }
                assert(r@.to_set() =~= self.neighbour_set_upto(gid, dir, w, i + 1));
            }
            i += 1;
        }
        proof {
            assert(self.neighbour_set_upto(gid, dir, w, self.edges@.len() as int)
                =~= self.neighbour_set(gid, dir, w));
        }
        r
    }

    /// The number of distinct neighbours of `gid` along `dir` with an edge
    /// event inside the window.
    pub fn degree(&self, gid: u64, dir: Direction, w: Window) -> (r: usize)
        requires
            self.wf(),
        ensures
            r == self.neighbour_set(gid, dir, w).len(),
            self.neighbour_set(gid, dir, w).finite(),
    {
        let ns = self.neighbours(gid, dir, w);
        proof {
            ns@.unique_seq_to_set();
        }
        ns.len()
    }

    /// A narrower window never sees more neighbours: degrees are monotonic
    /// in the window.
    pub proof fn lemma_degree_monotonic(self, gid: u64, dir: Direction, w1: Window, w2: Window)
        requires
            self.wf(),
            forall|t: i64| in_window(w2, t) ==> in_window(w1, t),
        ensures
            self.neighbour_set(gid, dir, w2).subset_of(self.neighbour_set(gid, dir, w1)),
            self.neighbour_set(gid, dir, w1).finite(),
            self.neighbour_set(gid, dir, w2).len() <= self.neighbour_set(gid, dir, w1).len(),
    {
        assert forall|u: u64| self.neighbour_set(gid, dir, w2).contains(u) implies
            self.neighbour_set(gid, dir, w1).contains(u) by {
            let i = choose|i: int|
                0 <= i < self.edges@.len() && edge_touches(
                    #[trigger] self.edges@[i],
                    gid,
                    u,
                    dir,
                    w2,
                );
            let k = choose|k: int|
                0 <= k < self.edges@[i].times@.len() && in_window(w2, self.edges@[i].times@[k]);
            assert(in_window(w1, self.edges@[i].times@[k]));
            assert(edge_touches(self.edges@[i], gid, u, dir, w1));
        }
        self.lemma_neighbour_set_finite(gid, dir, w1);
        vstd::set_lib::lemma_len_subset(
            self.neighbour_set(gid, dir, w2),
            self.neighbour_set(gid, dir, w1),
        );
    }

    /// Every neighbour is an endpoint of some stored edge, so the neighbour
    /// set is finite.
    pub proof fn lemma_neighbour_set_finite(self, gid: u64, dir: Direction, w: Window)
        ensures
            self.neighbour_set(gid, dir, w).finite(),
    {
        let srcs = self.edges@.map_values(|e: EdgeEntry| e.src).to_set();
        let dsts = self.edges@.map_values(|e: EdgeEntry| e.dst).to_set();
        let all = srcs.union(dsts);
        assert forall|u: u64| self.neighbour_set(gid, dir, w).contains(u) implies all.contains(
            u,
        ) by {
            let i = choose|i: int|
                0 <= i < self.edges@.len() && edge_touches(
                    #[trigger] self.edges@[i],
                    gid,
                    u,
                    dir,
                    w,
                );
            if self.edges@[i].src == u {
                assert(self.edges@.map_values(|e: EdgeEntry| e.src)[i] == u);
                assert(srcs.contains(u));
            } else {
                assert(self.edges@.map_values(|e: EdgeEntry| e.dst)[i] == u);
                assert(dsts.contains(u));
            }
        }
        vstd::set_lib::lemma_len_subset(self.neighbour_set(gid, dir, w), all);
    }

    /// In a well-formed shard each stored entry is the one entry of its
    /// (src, dst) pair.
    pub proof fn lemma_edge_entry_canonical(self, i: int)
        requires
            self.wf(),
            0 <= i < self.edges@.len(),
        ensures
            self.spec_has_edge(self.edges@[i].src, self.edges@[i].dst),
            self.edge_index(self.edges@[i].src, self.edges@[i].dst) == i,
            self.spec_edge(self.edges@[i].src, self.edges@[i].dst) == self.edges@[i],
    {
        let e = self.edges@[i];
        assert(self.edges@[i].src == e.src && self.edges@[i].dst == e.dst);
        let c = self.edge_index(e.src, e.dst);
        if c != i {
            assert(!(self.edges@[c].src == self.edges@[i].src && self.edges@[c].dst
                == self.edges@[i].dst));
        }
    }

    /// Membership in the vertex set coincides with the vertex being stored.
    pub proof fn lemma_vertex_set_contains(self, g: u64)
        ensures
            self.vertex_set().contains(g) <==> self.spec_has_vertex(g),
    {
        if self.vertex_set().contains(g) {
            let i = choose|i: int| 0 <= i < self.gid_seq().len() && self.gid_seq()[i] == g;
            assert(self.vertices@[i].gid == g);
        }
        if self.spec_has_vertex(g) {
            let i = choose|i: int|
                0 <= i < self.vertices@.len() && self.vertices@[i].gid == g;
            assert(self.gid_seq()[i] == g);
        }
    }

    /// The time of the first recorded event of `gid`, if the vertex exists.
    pub fn earliest_time_of(&self, gid: u64) -> (r: Option<i64>)
        requires
            self.wf(),
        ensures
            match r {
                Some(m) => self.spec_has_vertex(gid) && m == seq_min(self.spec_vertex(gid).times@),
                None => !self.spec_has_vertex(gid),
            },
    {
        match self.find_vertex(gid) {
            Some(lid) => {
                let times = &self.vertices[lid].times;
                let mut m = times[0];
                let mut k: usize = 1;
                proof {
                    assert(times@.subrange(0, 1) =~= seq![times@[0]]);
                }
                while k < times.len()
                    invariant
                        self.wf(),
                        1 <= k <= times@.len(),
                        times@.len() > 0,
                        times == self.spec_vertex(gid).times,
                        m == seq_min(times@.subrange(0, k as int)),
                    decreases times@.len() - k,
                {
                    proof {
                        assert(times@.subrange(0, k + 1).drop_last() =~= times@.subrange(
                            0,
                            k as int,
                        ));
                        assert(times@.subrange(0, k + 1).last() == times@[k as int]);
                    }
                    if times[k] < m {
                        m = times[k];
                    }
                    k += 1;
                }
                proof {
                    assert(times@.subrange(0, times@.len() as int) =~= times@);
                }
                Some(m)
            },
            None => None,
        }
    }

    /// The time of the last recorded event of `gid`, if the vertex exists.
    pub fn latest_time_of(&self, gid: u64) -> (r: Option<i64>)
        requires
            self.wf(),
        ensures
            match r {
                Some(m) => self.spec_has_vertex(gid) && m == seq_max(self.spec_vertex(gid).times@),
                None => !self.spec_has_vertex(gid),
            },
    {
        match self.find_vertex(gid) {
            Some(lid) => {
                let times = &self.vertices[lid].times;
                let mut m = times[0];
                let mut k: usize = 1;
                proof {
                    assert(times@.subrange(0, 1) =~= seq![times@[0]]);
                }
                while k < times.len()
                    invariant
                        self.wf(),
                        1 <= k <= times@.len(),
                        times@.len() > 0,
                        times == self.spec_vertex(gid).times,
                        m == seq_max(times@.subrange(0, k as int)),
                    decreases times@.len() - k,
                {
                    proof {
                        assert(times@.subrange(0, k + 1).drop_last() =~= times@.subrange(
                            0,
                            k as int,
                        ));
                        assert(times@.subrange(0, k + 1).last() == times@[k as int]);
                    }
                    if times[k] > m {
                        m = times[k];
                    }
                    k += 1;
                }
                proof {
                    assert(times@.subrange(0, times@.len() as int) =~= times@);
                }
                Some(m)
            },
            None => None,
        }
    }

    /// The global ids of the vertices of this shard, in local-id order.
    pub fn vertex_gids(&self) -> (r: Vec<u64>)
        ensures
            r@ == self.gid_seq(),
    {
        let mut r: Vec<u64> = Vec::new();
        let mut i: usize = 0;
        proof {
            assert(r@ =~= self.gid_seq().subrange(0, 0));
        }
        while i < self.vertices.len()
            invariant
                i <= self.vertices@.len(),
                r@ == self.gid_seq().subrange(0, i as int),
            decreases self.vertices@.len() - i,
        {
            r.push(self.vertices[i].gid);
            proof {
                assert(r@ =~= self.gid_seq().subrange(0, i + 1));
            }
            i += 1;
        }
        proof {
            assert(self.gid_seq().subrange(0, self.gid_seq().len() as int) =~= self.gid_seq());
        }
        r
    }

    /// The vertices of this shard with at least one event in the window.
    pub open spec fn active_set(self, w: Window) -> Set<u64> {
        Set::new(
            |g: u64| self.spec_has_vertex(g) && has_event_in(self.spec_vertex(g).times@, w),
        )
    }

    /// As `active_set`, over only the first `n` vertex entries.
    pub open spec fn active_set_upto(self, w: Window, n: int) -> Set<u64> {
        Set::new(
            |g: u64|
                exists|i: int|
                    0 <= i < n && i < self.vertices@.len() && (#[trigger] self.vertices@[i]).gid
                        == g && has_event_in(self.vertices@[i].times@, w),
        )
    }

    /// Count the vertices with at least one event inside the window.
    pub fn count_active(&self, w: Window) -> (r: usize)
        requires
            self.wf(),
        ensures
            r == self.active_set(w).len(),
            self.active_set(w).finite(),
    {
        let mut r: usize = 0;
        let mut i: usize = 0;
        proof {
            assert(self.active_set_upto(w, 0) =~= Set::<u64>::empty());
        }
        while i < self.vertices.len()
            invariant
                self.wf(),
                i <= self.vertices@.len(),
                r <= i,
                self.active_set_upto(w, i as int).finite(),
                r == self.active_set_upto(w, i as int).len(),
            decreases self.vertices@.len() - i,
        {
            let g = self.vertices[i].gid;
            if any_event_in(&self.vertices[i].times, w) {
                proof {
                    assert(!self.active_set_upto(w, i as int).contains(g)) by {
                        if self.active_set_upto(w, i as int).contains(g) {
                            let j = choose|j: int|
                                0 <= j < i && j < self.vertices@.len() && (
                                #[trigger] self.vertices@[j]).gid == g && has_event_in(
                                    self.vertices@[j].times@,
                                    w,
                                );
                            assert(self.gid_seq()[j] == g && self.gid_seq()[i as int] == g);
                        }
                    }
                    assert forall|g2: u64| self.active_set_upto(w, i + 1).contains(g2) implies
                        self.active_set_upto(w, i as int).insert(g).contains(g2) by {
                        let j = choose|j: int|
                            0 <= j < i + 1 && j < self.vertices@.len() && (
                            #[trigger] self.vertices@[j]).gid == g2 && has_event_in(
                                self.vertices@[j].times@,
                                w,
                            );
                        if j < i {
                            assert(self.active_set_upto(w, i as int).contains(g2));
                        }
                    }
                    assert(self.active_set_upto(w, i + 1) =~= self.active_set_upto(
                        w,
                        i as int,
                    ).insert(g));
                }
                r += 1;
            } else {
                proof {
                    assert forall|g2: u64| self.active_set_upto(w, i + 1).contains(g2) implies
                        self.active_set_upto(w, i as int).contains(g2) by {
                        let j = choose|j: int|
                            0 <= j < i + 1 && j < self.vertices@.len() && (
                            #[trigger] self.vertices@[j]).gid == g2 && has_event_in(
                                self.vertices@[j].times@,
                                w,
                            );
                        if j == i as int {
                            assert(!has_event_in(self.vertices@[j].times@, w));
                        }
                    }
                    assert(self.active_set_upto(w, i + 1) =~= self.active_set_upto(w, i as int));
                }
            }
            i += 1;
        }
        proof {
            assert forall|g: u64| self.active_set(w).contains(g) implies self.active_set_upto(
                w,
                self.vertices@.len() as int,
            ).contains(g) by {
                let j = choose|j: int|
                    0 <= j < self.vertices@.len() && self.vertices@[j].gid == g;
                assert(self.vertex_index(g) == j) by {
                    let c = self.vertex_index(g);
                    if c != j {
                        assert(self.gid_seq()[c] == self.vertices@[c].gid);
                        assert(self.gid_seq()[j] == g);
                    }
                }
                assert(has_event_in(self.vertices@[j].times@, w));
            }
            assert forall|g: u64| self.active_set_upto(
                w,
                self.vertices@.len() as int,
            ).contains(g) implies self.active_set(w).contains(g) by {
                let j = choose|j: int|
                    0 <= j < self.vertices@.len() && (#[trigger] self.vertices@[j]).gid == g
                        && has_event_in(self.vertices@[j].times@, w);
                assert(self.vertex_index(g) == j) by {
                    let c = self.vertex_index(g);
                    if c != j {
                        assert(self.gid_seq()[c] == self.vertices@[c].gid);
                        assert(self.gid_seq()[j] == g);
                    }
                }
            }
            assert(self.active_set(w) =~= self.active_set_upto(
                w,
                self.vertices@.len() as int,
            ));
        }
        r
    }

    /// The event times of `gid` inside the window, in recorded order; empty
    /// when the vertex is absent.
    pub fn history(&self, gid: u64, w: Window) -> (r: Vec<i64>)
        requires
            self.wf(),
        ensures
            self.spec_has_vertex(gid) ==> r@ == filter_window(self.spec_vertex(gid).times@, w),
            !self.spec_has_vertex(gid) ==> r@.len() == 0,
    {
        let mut r: Vec<i64> = Vec::new();
        match self.find_vertex(gid) {
            Some(lid) => {
                let times = &self.vertices[lid].times;
                let mut k: usize = 0;
                proof {
                    assert(times@.subrange(0, 0) =~= Seq::<i64>::empty());
                    assert(r@ =~= filter_window(times@.subrange(0, 0), w));
                }
                while k < times.len()
                    invariant
                        self.wf(),
                        k <= times@.len(),
                        times == self.spec_vertex(gid).times,
                        r@ == filter_window(times@.subrange(0, k as int), w),
                    decreases times@.len() - k,
                {
                    proof {
                        assert(times@.subrange(0, k + 1).drop_last() =~= times@.subrange(
                            0,
                            k as int,
                        ));
                        assert(times@.subrange(0, k + 1).last() == times@[k as int]);
                    }
                    let t = times[k];
                    let inside = match w {
                        None => true,
                        Some((s, e)) => s <= t && t < e,
                    };
                    if inside {
                        r.push(t);
                    }
                    k += 1;
                }
                proof {
                    assert(times@.subrange(0, times@.len() as int) =~= times@);
                }
                r
            },
            None => r,
        }
    }
}

} // verus!
