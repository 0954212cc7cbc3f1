//! The sharded temporal graph store.
//!
//! A store with `nr_shards` shards routes every operation on a vertex id to
//! the shard `gid mod nr_shards`. An edge whose endpoints land in the same
//! shard becomes one local edge; otherwise the source's shard receives an out
//! half-edge and the destination's shard an into half-edge with identical
//! content, and the edge is counted once, in the source's shard.

use crate::props::{apply_props, Prop};
use crate::shard::{
    filter_window, in_window, seq_max, seq_min, Direction, EdgeEntry, EdgeKind, Shard, Window,
};
use crate::{shard_of, spec_shard_of};
use vstd::prelude::*;

verus! {

/// The sharded temporal graph store.
pub struct GraphDB {
    pub nr_shards: usize,
    pub shards: Vec<Shard>,
}

/// The vertex ids of the first `k` shards, shard by shard and in local-id
/// order within each shard.
pub open spec fn gids_in_order(shards: Seq<Shard>, k: int) -> Seq<u64>
    decreases k,
{
    if k <= 0 {
        Seq::<u64>::empty()
    } else {
        gids_in_order(shards, k - 1) + shards[k - 1].gid_seq()
    }
}

/// The vertices stored by the first `k` shards.
pub open spec fn union_upto(shards: Seq<Shard>, k: int) -> Set<u64> {
    Set::new(
        |g: u64| exists|s: int| 0 <= s < k && (#[trigger] shards[s]).spec_has_vertex(g),
    )
}

/// The sum of the vertex counts of the first `k` shards.
pub open spec fn sum_vertex_counts(shards: Seq<Shard>, k: int) -> int
    decreases k,
{
    if k <= 0 {
        0
    } else {
        sum_vertex_counts(shards, k - 1) + shards[k - 1].vertex_set().len()
    }
}

/// When no vertex is stored by two shards, the vertices of the first `k`
/// shards number the sum of the per-shard counts.
pub proof fn lemma_union_upto_card(shards: Seq<Shard>, k: int)
    requires
        0 <= k <= shards.len(),
        forall|s1: int, s2: int, g: u64|
            0 <= s1 < s2 < shards.len() ==> !(#[trigger] shards[s1].spec_has_vertex(g)
                && #[trigger] shards[s2].spec_has_vertex(g)),
    ensures
        union_upto(shards, k).finite(),
        union_upto(shards, k).len() == sum_vertex_counts(shards, k),
    decreases k,
{
    if k <= 0 {
        assert(union_upto(shards, k) =~= Set::<u64>::empty());
    } else {
        lemma_union_upto_card(shards, k - 1);
        let a = union_upto(shards, k - 1);
        let b = shards[k - 1].vertex_set();
        assert forall|g: u64| b.contains(g) <==> shards[k - 1].spec_has_vertex(g) by {
            shards[k - 1].lemma_vertex_set_contains(g);
        }
        assert(b.finite()) by {
            broadcast use vstd::seq_lib::seq_to_set_is_finite;

        }
        assert(a.disjoint(b));
        assert(union_upto(shards, k) =~= a + b);
        vstd::set_lib::lemma_set_disjoint_lens(a, b);
    }
}

/// The effect, on a set, of inserting a sequence of elements in order.
pub open spec fn insert_all(s: Set<u64>, vs: Seq<u64>) -> Set<u64>
    decreases vs.len(),
{
    if vs.len() == 0 {
        s
    } else {
        insert_all(s.insert(vs[0]), vs.drop_first())
    }
}

/// Inserting a sequence of ids into the empty set leaves exactly the set of
/// distinct ids: a store that counts its vertex set therefore reports, after
/// any sequence of vertex additions, the number of distinct ids added.
pub proof fn lemma_insert_all_distinct(s: Set<u64>, vs: Seq<u64>)
    ensures
        insert_all(s, vs) =~= s.union(vs.to_set()),
        insert_all(Set::<u64>::empty(), vs) =~= vs.to_set(),
    decreases vs.len(),
{
    if vs.len() == 0 {
        assert(vs.to_set() =~= Set::<u64>::empty());
    } else {
        lemma_insert_all_distinct(s.insert(vs[0]), vs.drop_first());
        lemma_insert_all_distinct(Set::<u64>::empty().insert(vs[0]), vs.drop_first());
        assert forall|g: u64| vs.to_set().contains(g) implies (g == vs[0]
            || vs.drop_first().to_set().contains(g)) by {
            let i = choose|i: int| 0 <= i < vs.len() && vs[i] == g;
            if i > 0 {
                assert(vs.drop_first()[i - 1] == g);
            }
        }
        assert forall|g: u64| vs.drop_first().to_set().contains(g) implies vs.to_set().contains(
            g,
        ) by {
            let i = choose|i: int| 0 <= i < vs.drop_first().len() && vs.drop_first()[i] == g;
            assert(vs[i + 1] == g);
        }
        assert(vs.to_set().contains(vs[0]));
        assert(insert_all(s, vs) =~= s.union(vs.to_set()));
        assert(insert_all(Set::<u64>::empty(), vs) =~= vs.to_set());
    }
}

impl GraphDB {
    pub open spec fn nr(self) -> int {
        self.nr_shards as int
    }

    /// The shard that owns `g`.
    pub open spec fn owner_of(self, g: u64) -> int {
        spec_shard_of(g, self.nr())
    }

    /// Every edge entry is stored under the kind its endpoints' residues
    /// dictate.
    pub open spec fn edge_routed(self, s: int, e: EdgeEntry) -> bool {
        match e.kind {
            EdgeKind::Local => self.owner_of(e.src) == s && self.owner_of(e.dst) == s,
            EdgeKind::OutHalf => self.owner_of(e.src) == s && self.owner_of(e.dst) != s,
            EdgeKind::InHalf => self.owner_of(e.dst) == s && self.owner_of(e.src) != s,
        }
    }

    /// Each half of a cross-shard edge is matched by the other half, with
    /// identical occurrence times and properties, in the other endpoint's
    /// shard.
    pub open spec fn pair_ok(self, s: int, i: int) -> bool {
        let e = self.shards@[s].edges@[i];
        &&& (e.kind == EdgeKind::OutHalf ==> {
            let o = self.shards@[self.owner_of(e.dst)];
            &&& o.spec_has_edge(e.src, e.dst)
            &&& o.spec_edge(e.src, e.dst).kind == EdgeKind::InHalf
            &&& o.spec_edge(e.src, e.dst).times@ == e.times@
            &&& o.spec_edge(e.src, e.dst).props.as_map() == e.props.as_map()
        })
        &&& (e.kind == EdgeKind::InHalf ==> {
            let o = self.shards@[self.owner_of(e.src)];
            &&& o.spec_has_edge(e.src, e.dst)
            &&& o.spec_edge(e.src, e.dst).kind == EdgeKind::OutHalf
            &&& o.spec_edge(e.src, e.dst).times@ == e.times@
            &&& o.spec_edge(e.src, e.dst).props.as_map() == e.props.as_map()
        })
    }

    /// Store invariant: at least one shard, every shard well-formed, every
    /// vertex in the shard its id hashes to, every edge entry routed by its
    /// endpoints, both halves of every cross-shard edge present with equal
    /// content, and the total vertex count within machine range.
    pub open spec fn wf(self) -> bool {
        &&& self.nr_shards >= 1
        &&& self.shards@.len() == self.nr_shards
        &&& forall|s: int| 0 <= s < self.nr() ==> (#[trigger] self.shards@[s]).wf()
        &&& forall|s: int, i: int|
            0 <= s < self.nr() && 0 <= i < self.shards@[s].vertices@.len() ==> self.owner_of(
                (#[trigger] self.shards@[s].vertices@[i]).gid,
            ) == s
        &&& forall|s: int, i: int|
            0 <= s < self.nr() && 0 <= i < self.shards@[s].edges@.len() ==> self.edge_routed(
                s,
                (#[trigger] self.shards@[s].edges@[i]),
            )
        &&& forall|s: int, i: int|
            0 <= s < self.nr() && 0 <= i < self.shards@[s].edges@.len() ==> self.pair_ok(s, i)
        &&& union_upto(self.shards@, self.nr()).len() <= usize::MAX
        &&& self.spec_logical_pairs(None).len() <= usize::MAX
    }

    /// Is the logical edge (a, b) present? A logical edge lives, as a local
    /// edge or an out half-edge, in its source's shard.
    pub open spec fn spec_has_edge(self, a: u64, b: u64) -> bool {
        self.shards@[self.owner_of(a)].spec_has_edge(a, b)
    }

    /// The occurrence times of the logical edge (a, b).
    pub open spec fn spec_edge_times(self, a: u64, b: u64) -> Seq<i64> {
        self.shards@[self.owner_of(a)].spec_edge(a, b).times@
    }

    /// The property histories of the logical edge (a, b), as a map from
    /// name to timestamped values.
    pub open spec fn spec_edge_props(self, a: u64, b: u64) -> Map<Seq<char>, Seq<(i64, Prop)>> {
        self.shards@[self.owner_of(a)].spec_edge(a, b).props.as_map()
    }

    /// The property histories of vertex `v`.
    pub open spec fn spec_vertex_props(self, v: u64) -> Map<Seq<char>, Seq<(i64, Prop)>> {
        self.shards@[self.owner_of(v)].spec_vertex(v).props.as_map()
    }

    /// The name of vertex `v`, if one was ever set.
    pub open spec fn spec_vertex_name(self, v: u64) -> Option<String> {
        self.shards@[self.owner_of(v)].spec_vertex(v).name
    }

    /// The logical edges with at least one occurrence inside the window.
    pub open spec fn spec_logical_pairs(self, w: Window) -> Set<(u64, u64)> {
        Set::new(
            |p: (u64, u64)|
                self.spec_has_edge(p.0, p.1) && crate::shard::has_event_in(
                    self.spec_edge_times(p.0, p.1),
                    w,
                ),
        )
    }

    /// The sum of the logical-edge counts of the first `k` shards.
    pub open spec fn sum_edge_counts(self, w: Window, k: int) -> int
        decreases k,
    {
        if k <= 0 {
            0
        } else {
            self.sum_edge_counts(w, k - 1) + self.shards@[k - 1].spec_logical_pairs(w).len()
        }
    }

    /// The logical edges, with an event in `w`, of the first `k` shards.
    pub open spec fn pairs_union_upto(self, w: Window, k: int) -> Set<(u64, u64)> {
        Set::new(
            |p: (u64, u64)|
                exists|s: int|
                    0 <= s < k && (#[trigger] self.shards@[s]).spec_logical_pairs(w).contains(p),
        )
    }

    /// A logical entry of shard `s` has its source owned by `s`, so the
    /// shards' logical pair sets are pairwise disjoint and their counts sum
    /// to the count of the union.
    proof fn lemma_pairs_union_card(self, w: Window, k: int)
        requires
            self.wf(),
            0 <= k <= self.nr(),
        ensures
            self.pairs_union_upto(w, k).finite(),
            self.pairs_union_upto(w, k).len() == self.sum_edge_counts(w, k),
        decreases k,
    {
        if k <= 0 {
            assert(self.pairs_union_upto(w, k) =~= Set::<(u64, u64)>::empty());
        } else {
            self.lemma_pairs_union_card(w, k - 1);
            let a = self.pairs_union_upto(w, k - 1);
            let b = self.shards@[k - 1].spec_logical_pairs(w);
            assert(b.finite() && b.len() == crate::shard::count_logical(
                self.shards@[k - 1].edges@,
                w,
            )) by {
                crate::shard::lemma_count_logical_is_pairs(self.shards@[k - 1].edges@, w);
            }
            assert(a.disjoint(b)) by {
                assert forall|p: (u64, u64)| b.contains(p) implies self.owner_of(p.0) == k - 1 by {
                    self.lemma_logical_pair_owner(w, k - 1, p);
                }
                assert forall|p: (u64, u64)| a.contains(p) implies !b.contains(p) by {
                    let s = choose|s: int|
                        0 <= s < k - 1 && (#[trigger] self.shards@[s]).spec_logical_pairs(
                            w,
                        ).contains(p);
                    self.lemma_logical_pair_owner(w, s, p);
                }
            }
            assert(self.pairs_union_upto(w, k) =~= a + b);
            vstd::set_lib::lemma_set_disjoint_lens(a, b);
        }
    }

    /// A pair in shard `s`'s logical set is owned by `s`.
    proof fn lemma_logical_pair_owner(self, w: Window, s: int, p: (u64, u64))
        requires
            self.wf(),
            0 <= s < self.nr(),
            self.shards@[s].spec_logical_pairs(w).contains(p),
        ensures
            self.owner_of(p.0) == s,
            self.spec_has_edge(p.0, p.1),
            crate::shard::has_event_in(self.spec_edge_times(p.0, p.1), w),
    {
        let sh = self.shards@[s];
        let i = choose|i: int|
            0 <= i < sh.edges@.len() && (#[trigger] sh.edges@[i]).src == p.0 && sh.edges@[i].dst
                == p.1 && crate::shard::edge_logical_in(sh.edges@[i], w);
        assert(self.edge_routed(s, sh.edges@[i]));
        sh.lemma_edge_entry_canonical(i);
    }

    /// Conversely, a logical edge of the store with an event in the window
    /// lies in its owner's logical pair set.
    proof fn lemma_pairs_union_is_global(self, w: Window)
        requires
            self.wf(),
        ensures
            self.pairs_union_upto(w, self.nr()) =~= self.spec_logical_pairs(w),
    {
        assert forall|p: (u64, u64)| self.pairs_union_upto(w, self.nr()).contains(p) implies
            self.spec_logical_pairs(w).contains(p) by {
            let s = choose|s: int|
                0 <= s < self.nr() && (#[trigger] self.shards@[s]).spec_logical_pairs(w).contains(
                    p,
                );
            self.lemma_logical_pair_owner(w, s, p);
        }
        assert forall|p: (u64, u64)| self.spec_logical_pairs(w).contains(p) implies
            self.pairs_union_upto(w, self.nr()).contains(p) by {
            let s = self.owner_of(p.0);
            let sh = self.shards@[s];
            let i = sh.edge_index(p.0, p.1);
            assert(sh.edges@[i].src == p.0 && sh.edges@[i].dst == p.1);
            assert(self.edge_routed(s, sh.edges@[i]));
            assert(sh.edges@[i].kind != EdgeKind::InHalf);
            assert(crate::shard::edge_logical_in(sh.edges@[i], w));
            assert(sh.spec_logical_pairs(w).contains(p));
        }
    }

    /// The set of vertices of the whole store.
    pub open spec fn vertex_set(self) -> Set<u64> {
        union_upto(self.shards@, self.nr())
    }

    pub open spec fn spec_has_vertex(self, g: u64) -> bool {
        self.shards@[self.owner_of(g)].spec_has_vertex(g)
    }

    /// No two shards share a vertex: membership in shard `s` forces
    /// `owner_of(g) == s`.
    pub proof fn lemma_shards_disjoint(self)
        requires
            self.wf(),
        ensures
            forall|s1: int, s2: int, g: u64|
                0 <= s1 < s2 < self.shards@.len() ==> !(#[trigger] self.shards@[s1].spec_has_vertex(
                    g,
                ) && #[trigger] self.shards@[s2].spec_has_vertex(g)),
            forall|s: int, g: u64|
                0 <= s < self.nr() && #[trigger] self.shards@[s].spec_has_vertex(g)
                    ==> self.owner_of(g) == s,
    {
        assert forall|s: int, g: u64|
            0 <= s < self.nr() && #[trigger] self.shards@[s].spec_has_vertex(g) implies
            self.owner_of(g) == s by {
            let i = choose|i: int|
                0 <= i < self.shards@[s].vertices@.len() && self.shards@[s].vertices@[i].gid == g;
            assert(self.owner_of(self.shards@[s].vertices@[i].gid) == s);
        }
    }

    /// Membership in the global vertex set is membership in the owner shard.
    pub proof fn lemma_vertex_set_contains(self, g: u64)
        requires
            self.wf(),
        ensures
            self.vertex_set().contains(g) <==> self.spec_has_vertex(g),
    {
        self.lemma_shards_disjoint();
        if self.spec_has_vertex(g) {
            assert(0 <= self.owner_of(g) < self.nr()) by {
                assert(self.nr() >= 1);
            }
        }
    }

    /// Build a store of `nr_shards` empty shards.
    pub fn new(nr_shards: usize) -> (r: Self)
        requires
            nr_shards >= 1,
        ensures
            r.wf(),
            r.nr_shards == nr_shards,
            r.vertex_set() =~= Set::<u64>::empty(),
            forall|s: int| 0 <= s < r.nr() ==> (#[trigger] r.shards@[s]).edges@.len() == 0,
            forall|w: Window| r.spec_logical_pairs(w) =~= Set::<(u64, u64)>::empty(),
    {
        let mut shards: Vec<Shard> = Vec::new();
        let mut i: usize = 0;
        while i < nr_shards
            invariant
                i <= nr_shards,
                shards@.len() == i,
                forall|s: int|
                    0 <= s < i ==> (#[trigger] shards@[s]).vertices@.len() == 0 && shards@[s].wf()
                        && shards@[s].edges@.len() == 0,
            decreases nr_shards - i,
        {
            shards.push(Shard::new());
            i += 1;
        }
        let r = GraphDB { nr_shards, shards };
        proof {
            assert(r.vertex_set() =~= Set::<u64>::empty());
            lemma_union_upto_card(r.shards@, r.nr());
            assert forall|w: Window| r.spec_logical_pairs(w) =~= Set::<(u64, u64)>::empty() by {
                assert forall|p: (u64, u64)| !r.spec_logical_pairs(w).contains(p) by {
                    assert(0 <= r.owner_of(p.0) < r.nr());
                }
            }
            assert(r.spec_logical_pairs(None) =~= Set::<(u64, u64)>::empty());
            assert(r.spec_logical_pairs(None).len() == 0);
        }
        r
    }

    /// Route a vertex id to its shard.
    pub fn shard_from_global_vid(&self, v: u64) -> (r: usize)
        requires
            self.wf(),
        ensures
            r as int == self.owner_of(v),
            r < self.nr_shards,
    {
        shard_of(v, self.nr_shards)
    }

    /// Add a vertex event: create the vertex in its shard on first sight,
    /// record the event time, and append the properties. The edge tables are
    /// untouched.
    pub fn add_vertex(&mut self, v: u64, t: i64, props: &Vec<(String, Prop)>)
        requires
            old(self).wf(),
            old(self).vertex_set().len() < usize::MAX,
        ensures
            final(self).wf(),
            final(self).nr_shards == old(self).nr_shards,
            final(self).vertex_set() =~= old(self).vertex_set().insert(v),
            final(self).spec_has_vertex(v),
            forall|s: int|
                0 <= s < old(self).nr() ==> (#[trigger] final(self).shards@[s]).edges@ == old(self).shards@[s].edges@,
            forall|g: u64| old(self).spec_has_vertex(g) ==> final(self).spec_has_vertex(g),
            forall|a: u64, b: u64|
                #[trigger] final(self).spec_has_edge(a, b) == old(self).spec_has_edge(a, b)
                    && #[trigger] final(self).spec_edge_times(a, b) == old(self).spec_edge_times(
                    a,
                    b,
                ),
            forall|w: Window| final(self).spec_logical_pairs(w) == old(self).spec_logical_pairs(w),
            final(self).spec_vertex_times(v) == (if old(self).spec_has_vertex(v) {
                old(self).spec_vertex_times(v).push(t)
            } else {
                seq![t]
            }),
            final(self).spec_vertex_props(v) == apply_props(
                if old(self).spec_has_vertex(v) {
                    old(self).spec_vertex_props(v)
                } else {
                    Map::<Seq<char>, Seq<(i64, Prop)>>::empty()
                },
                t,
                props@,
            ),
            old(self).spec_has_vertex(v) ==> final(self).spec_vertex_name(v) == old(self).spec_vertex_name(v),
            !old(self).spec_has_vertex(v) ==> final(self).spec_vertex_name(v) is None,
            forall|g: u64|
                g != v ==> (#[trigger] final(self).spec_has_vertex(g) == old(self).spec_has_vertex(g)
                    && (old(self).spec_has_vertex(g) ==> final(self).shards@[final(self).owner_of(g)].spec_vertex(g)
                        == old(self).shards@[old(self).owner_of(g)].spec_vertex(g))),
    {
        let s = shard_of(v, self.nr_shards);
        let ghost pre = *self;
        let shard = &mut self.shards[s];
        shard.add_vertex(v, t, props);
        proof {
            assert(self.shards@ =~= pre.shards@.update(s as int, self.shards@[s as int]));
            pre.lemma_shards_disjoint();
            assert(self.owner_of(v) == s as int);
            assert forall|g: u64|
                g != v implies (#[trigger] self.spec_has_vertex(g) == pre.spec_has_vertex(g) && (
            pre.spec_has_vertex(g) ==> self.shards@[self.owner_of(g)].spec_vertex(g)
                == pre.shards@[pre.owner_of(g)].spec_vertex(g))) by {
                let q = pre.owner_of(g);
                assert(0 <= q < pre.nr());
                if q != s as int {
                    assert(self.shards@[q] == pre.shards@[q]);
                }
            }
            assert forall|g: u64| pre.spec_has_vertex(g) implies self.spec_has_vertex(g) by {
                if pre.owner_of(g) == s as int {
                    assert(self.shards@[s as int].vertex_set().contains(g)) by {
                        pre.shards@[s as int].lemma_vertex_set_contains(g);
                    }
                    self.shards@[s as int].lemma_vertex_set_contains(g);
                }
            }
            assert forall|g: u64| self.vertex_set().contains(g) implies pre.vertex_set().insert(
                v,
            ).contains(g) by {
                let q = choose|q: int|
                    0 <= q < self.nr() && (#[trigger] self.shards@[q]).spec_has_vertex(g);
                if q == s as int {
                    self.shards@[q].lemma_vertex_set_contains(g);
                    pre.shards@[q].lemma_vertex_set_contains(g);
                    if g != v {
                        assert(pre.shards@[q].vertex_set().contains(g));
                        assert(pre.shards@[q].spec_has_vertex(g));
                        assert(pre.vertex_set().contains(g));
                    }
                } else {
                    assert(pre.shards@[q].spec_has_vertex(g));
                    assert(pre.vertex_set().contains(g));
                }
            }
            assert forall|g: u64| pre.vertex_set().insert(v).contains(g) implies
                self.vertex_set().contains(g) by {
                if g == v {
                    self.shards@[s as int].lemma_vertex_set_contains(v);
                    pre.shards@[s as int].lemma_vertex_set_contains(v);
                    assert(self.shards@[s as int].spec_has_vertex(v));
                } else {
                    let q = choose|q: int|
                        0 <= q < self.nr() && (#[trigger] pre.shards@[q]).spec_has_vertex(g);
                    if q == s as int {
                        pre.shards@[q].lemma_vertex_set_contains(g);
                        self.shards@[q].lemma_vertex_set_contains(g);
                        assert(self.shards@[q].spec_has_vertex(g));
                    } else {
                        assert(self.shards@[q].spec_has_vertex(g));
                    }
                }
            }
            assert(self.vertex_set() =~= pre.vertex_set().insert(v));
            assert forall|a: u64, b: u64|
                #[trigger] self.spec_has_edge(a, b) == pre.spec_has_edge(a, b)
                    && #[trigger] self.spec_edge_times(a, b) == pre.spec_edge_times(a, b) by {
                assert(0 <= self.owner_of(a) < self.nr());
                assert(self.shards@[self.owner_of(a)].edges@ == pre.shards@[pre.owner_of(
                    a,
                )].edges@);
            }
            assert forall|w: Window| self.spec_logical_pairs(w) == pre.spec_logical_pairs(w) by {
                assert(self.spec_logical_pairs(w) =~= pre.spec_logical_pairs(w));
            }
            assert(self.wf()) by {
                assert forall|q: int, i: int|
                    0 <= q < self.nr() && 0 <= i < self.shards@[q].vertices@.len() implies
                    self.owner_of((#[trigger] self.shards@[q].vertices@[i]).gid) == q by {
                    if q == s as int {
                        let g = self.shards@[q].vertices@[i].gid;
                        assert(self.shards@[q].spec_has_vertex(g));
                        self.shards@[q].lemma_vertex_set_contains(g);
                        pre.shards@[q].lemma_vertex_set_contains(g);
                        if g != v {
                            assert(pre.shards@[q].spec_has_vertex(g));
                            let j = choose|j: int|
                                0 <= j < pre.shards@[q].vertices@.len()
                                    && pre.shards@[q].vertices@[j].gid == g;
                            assert(pre.owner_of(pre.shards@[q].vertices@[j].gid) == q);
                        }
                    }
                }
                assert forall|q: int, i: int|
                    0 <= q < self.nr() && 0 <= i < self.shards@[q].edges@.len() implies
                    self.edge_routed(q, (#[trigger] self.shards@[q].edges@[i]))
                        && self.pair_ok(q, i) by {
                    assert(self.shards@[q].edges@ == pre.shards@[q].edges@);
                    assert(pre.edge_routed(q, pre.shards@[q].edges@[i]));
                    assert(pre.pair_ok(q, i));
                    let e = self.shards@[q].edges@[i];
                    if e.kind == EdgeKind::OutHalf {
                        assert(self.shards@[self.owner_of(e.dst)].edges@ == pre.shards@[pre.owner_of(
                            e.dst,
                        )].edges@);
                    }
                    if e.kind == EdgeKind::InHalf {
                        assert(self.shards@[self.owner_of(e.src)].edges@ == pre.shards@[pre.owner_of(
                            e.src,
                        )].edges@);
                    }
                }
                assert(union_upto(self.shards@, self.nr()).len() <= usize::MAX) by {
                    self.lemma_shards_disjoint_from_routing();
                    lemma_union_upto_card(self.shards@, self.nr());
                    lemma_union_upto_card(pre.shards@, pre.nr());
                }
                assert(self.spec_logical_pairs(None).len() <= usize::MAX);
            }
        }
    }

    /// Disjointness of shard vertex sets, derived from the routing clause of
    /// the invariant alone (for use while re-establishing `wf`).
    proof fn lemma_shards_disjoint_from_routing(self)
        requires
            forall|s: int, i: int|
                0 <= s < self.nr() && 0 <= i < self.shards@[s].vertices@.len() ==> self.owner_of(
                    (#[trigger] self.shards@[s].vertices@[i]).gid,
                ) == s,
            self.shards@.len() == self.nr(),
        ensures
            forall|s1: int, s2: int, g: u64|
                0 <= s1 < s2 < self.shards@.len() ==> !(#[trigger] self.shards@[s1].spec_has_vertex(
                    g,
                ) && #[trigger] self.shards@[s2].spec_has_vertex(g)),
    {
        assert forall|s1: int, s2: int, g: u64| 0 <= s1 < s2 < self.shards@.len() implies !(
        #[trigger] self.shards@[s1].spec_has_vertex(g) && #[trigger] self.shards@[s2].spec_has_vertex(
            g,
        )) by {
            if self.shards@[s1].spec_has_vertex(g) && self.shards@[s2].spec_has_vertex(g) {
                let i1 = choose|i: int|
                    0 <= i < self.shards@[s1].vertices@.len() && self.shards@[s1].vertices@[i].gid
                        == g;
                let i2 = choose|i: int|
                    0 <= i < self.shards@[s2].vertices@.len() && self.shards@[s2].vertices@[i].gid
                        == g;
                assert(self.owner_of(self.shards@[s1].vertices@[i1].gid) == s1);
                assert(self.owner_of(self.shards@[s2].vertices@[i2].gid) == s2);
            }
        }
    }

    /// The number of vertices in the store: by the invariant, the number of
    /// distinct vertex ids ever added.
    pub fn len(&self) -> (r: usize)
        requires
            self.wf(),
        ensures
            r == self.vertex_set().len(),
    {
        proof {
            self.lemma_shards_disjoint();
            lemma_union_upto_card(self.shards@, self.nr());
        }
        let mut r: usize = 0;
        let mut s: usize = 0;
        while s < self.nr_shards
            invariant
                self.wf(),
                s <= self.nr_shards,
                r == sum_vertex_counts(self.shards@, s as int),
                sum_vertex_counts(self.shards@, s as int) <= sum_vertex_counts(
                    self.shards@,
                    self.nr(),
                ),
            decreases self.nr_shards - s,
        {
            proof {
                self.lemma_shards_disjoint();
                lemma_union_upto_card(self.shards@, s as int);
                lemma_union_upto_card(self.shards@, s + 1);
                lemma_union_upto_card(self.shards@, self.nr());
                assert(union_upto(self.shards@, s + 1).subset_of(
                    union_upto(self.shards@, self.nr()),
                ));
                vstd::set_lib::lemma_len_subset(
                    union_upto(self.shards@, s + 1),
                    union_upto(self.shards@, self.nr()),
                );
            }
            r = r + self.shards[s].len();
            s += 1;
        }
        r
    }

    /// Is the vertex present?
    pub fn has_vertex(&self, v: u64) -> (r: bool)
        requires
            self.wf(),
        ensures
            r == self.spec_has_vertex(v),
    {
        let s = shard_of(v, self.nr_shards);
        match self.shards[s].find_vertex(v) {
            Some(_) => true,
            None => false,
        }
    }

    /// Vertex-table clauses of the invariant survive replacing one shard, as
    /// long as the shard gains exactly the vertices of `added`, all owned by
    /// it, and the total stays in machine range.
    proof fn lemma_shard_update_vertices(self, pre: Self, s: int, added: Set<u64>)
        requires
            pre.nr_shards >= 1,
            pre.shards@.len() == pre.nr(),
            forall|q: int, i: int|
                0 <= q < pre.nr() && 0 <= i < pre.shards@[q].vertices@.len() ==> pre.owner_of(
                    (#[trigger] pre.shards@[q].vertices@[i]).gid,
                ) == q,
            union_upto(pre.shards@, pre.nr()).len() + added.len() <= usize::MAX,
            self.nr_shards == pre.nr_shards,
            self.shards@.len() == pre.shards@.len(),
            0 <= s < pre.nr(),
            forall|q: int| 0 <= q < pre.nr() && q != s ==> self.shards@[q] == pre.shards@[q],
            self.shards@[s].vertex_set() == pre.shards@[s].vertex_set().union(added),
            added.finite(),
            forall|g: u64| added.contains(g) ==> spec_shard_of(g, pre.nr()) == s,
        ensures
            self.vertex_set() =~= pre.vertex_set().union(added),
            forall|q: int, i: int|
                0 <= q < self.nr() && 0 <= i < self.shards@[q].vertices@.len() ==> self.owner_of(
                    (#[trigger] self.shards@[q].vertices@[i]).gid,
                ) == q,
            forall|g: u64| pre.spec_has_vertex(g) ==> self.spec_has_vertex(g),
            union_upto(self.shards@, self.nr()).len() <= union_upto(pre.shards@, pre.nr()).len()
                + added.len(),
            union_upto(self.shards@, self.nr()).len() <= usize::MAX,
            union_upto(self.shards@, self.nr()).finite(),
    {
        assert forall|g: u64| self.vertex_set().contains(g) implies pre.vertex_set().union(
            added,
        ).contains(g) by {
            let q = choose|q: int|
                0 <= q < self.nr() && (#[trigger] self.shards@[q]).spec_has_vertex(g);
            if q == s {
                self.shards@[q].lemma_vertex_set_contains(g);
                pre.shards@[q].lemma_vertex_set_contains(g);
                if !added.contains(g) {
                    assert(pre.shards@[q].spec_has_vertex(g));
                    assert(pre.vertex_set().contains(g));
                }
            } else {
                assert(pre.shards@[q].spec_has_vertex(g));
                assert(pre.vertex_set().contains(g));
            }
        }
        assert forall|g: u64| pre.vertex_set().union(added).contains(g) implies
            self.vertex_set().contains(g) by {
            if added.contains(g) {
                self.shards@[s].lemma_vertex_set_contains(g);
                pre.shards@[s].lemma_vertex_set_contains(g);
                assert(self.shards@[s].vertex_set().contains(g));
                assert(self.shards@[s].spec_has_vertex(g));
            } else {
                let q = choose|q: int|
                    0 <= q < pre.nr() && (#[trigger] pre.shards@[q]).spec_has_vertex(g);
                if q == s {
                    pre.shards@[q].lemma_vertex_set_contains(g);
                    self.shards@[q].lemma_vertex_set_contains(g);
                    assert(self.shards@[q].vertex_set().contains(g));
                    assert(self.shards@[q].spec_has_vertex(g));
                } else {
                    assert(self.shards@[q].spec_has_vertex(g));
                }
            }
        }
        assert forall|q: int, i: int|
            0 <= q < self.nr() && 0 <= i < self.shards@[q].vertices@.len() implies self.owner_of(
            (#[trigger] self.shards@[q].vertices@[i]).gid,
        ) == q by {
            if q == s {
                let g = self.shards@[q].vertices@[i].gid;
                assert(self.shards@[q].spec_has_vertex(g));
                self.shards@[q].lemma_vertex_set_contains(g);
                pre.shards@[q].lemma_vertex_set_contains(g);
                if !added.contains(g) {
                    assert(pre.shards@[q].spec_has_vertex(g));
                    let j = choose|j: int|
                        0 <= j < pre.shards@[q].vertices@.len() && pre.shards@[q].vertices@[j].gid
                            == g;
                    assert(pre.owner_of(pre.shards@[q].vertices@[j].gid) == q);
                }
            }
        }
        assert forall|g: u64| pre.spec_has_vertex(g) implies self.spec_has_vertex(g) by {
            let q = pre.owner_of(g);
            assert(0 <= q < pre.nr());
            if q == s {
                pre.shards@[q].lemma_vertex_set_contains(g);
                self.shards@[q].lemma_vertex_set_contains(g);
                assert(self.shards@[q].vertex_set().contains(g));
            }
        }
        pre.lemma_shards_disjoint_from_routing();
        self.lemma_shards_disjoint_from_routing();
        lemma_union_upto_card(pre.shards@, pre.nr());
        lemma_union_upto_card(self.shards@, self.nr());
        assert(self.vertex_set() =~= pre.vertex_set().union(added));
        vstd::set_lib::lemma_len_union(pre.vertex_set(), added);
        assert(self.vertex_set().len() <= pre.vertex_set().len() + added.len());
    }

    /// Add an edge occurrence (src, dst) at time `t`. Both endpoints are
    /// created on first sight and the occurrence is appended to the edge's
    /// history. With both endpoints in one shard a single local edge is
    /// written; otherwise the source's shard receives the out half-edge and
    /// the destination's shard the into half-edge, and the logical edge is
    /// counted once.
    #[verifier::rlimit(100)]
    pub fn add_edge(&mut self, src: u64, dst: u64, t: i64, props: &Vec<(String, Prop)>)
        requires
            old(self).wf(),
            old(self).vertex_set().len() + 2 <= usize::MAX,
            old(self).spec_logical_pairs(None).len() < usize::MAX,
        ensures
            final(self).wf(),
            final(self).nr_shards == old(self).nr_shards,
            final(self).vertex_set() =~= old(self).vertex_set().insert(src).insert(dst),
            final(self).spec_has_vertex(src),
            final(self).spec_has_vertex(dst),
            final(self).spec_has_edge(src, dst),
            final(self).spec_edge_times(src, dst) == (if old(self).spec_has_edge(src, dst) {
                old(self).spec_edge_times(src, dst).push(t)
            } else {
                seq![t]
            }),
            final(self).spec_edge_props(src, dst) == apply_props(
                if old(self).spec_has_edge(src, dst) {
                    old(self).spec_edge_props(src, dst)
                } else {
                    Map::<Seq<char>, Seq<(i64, Prop)>>::empty()
                },
                t,
                props@,
            ),
            final(self).spec_vertex_times(src) == (if old(self).spec_has_vertex(src) {
                old(self).spec_vertex_times(src).push(t)
            } else {
                seq![t]
            }),
            src != dst ==> final(self).spec_vertex_times(dst) == (if old(self).spec_has_vertex(dst) {
                old(self).spec_vertex_times(dst).push(t)
            } else {
                seq![t]
            }),
            old(self).spec_has_vertex(src) ==> final(self).spec_vertex_name(src) == old(self).spec_vertex_name(src)
                && final(self).spec_vertex_props(src) == old(self).spec_vertex_props(src),
            !old(self).spec_has_vertex(src) ==> final(self).spec_vertex_name(src) is None
                && final(self).spec_vertex_props(src) == Map::<Seq<char>, Seq<(i64, Prop)>>::empty(),
            src != dst && old(self).spec_has_vertex(dst) ==> final(self).spec_vertex_name(dst) == old(self).spec_vertex_name(dst)
                && final(self).spec_vertex_props(dst) == old(self).spec_vertex_props(dst),
            src != dst && !old(self).spec_has_vertex(dst) ==> final(self).spec_vertex_name(dst) is None
                && final(self).spec_vertex_props(dst) == Map::<Seq<char>, Seq<(i64, Prop)>>::empty(),
            forall|g: u64|
                g != src && g != dst ==> (#[trigger] final(self).spec_has_vertex(g) == old(self).spec_has_vertex(g)
                    && (old(self).spec_has_vertex(g) ==> final(self).shards@[final(self).owner_of(g)].spec_vertex(g)
                        == old(self).shards@[old(self).owner_of(g)].spec_vertex(g))),
            forall|a: u64, b: u64|
                !(a == src && b == dst) ==> #[trigger] final(self).spec_has_edge(a, b) == old(self).spec_has_edge(a, b) && (old(self).spec_has_edge(a, b) ==> final(self).spec_edge_times(a, b) == old(self).spec_edge_times(a, b)),
            final(self).spec_logical_pairs(None) =~= old(self).spec_logical_pairs(None).insert(
                (src, dst),
            ),
            old(self).owner_of(src) != old(self).owner_of(dst) ==> {
                &&& final(self).shards@[final(self).owner_of(src)].spec_edge(src, dst).kind
                    == EdgeKind::OutHalf
                &&& final(self).shards@[final(self).owner_of(dst)].spec_has_edge(src, dst)
                &&& final(self).shards@[final(self).owner_of(dst)].spec_edge(src, dst).kind
                    == EdgeKind::InHalf
                &&& final(self).shards@[final(self).owner_of(dst)].spec_edge(src, dst).times@
                    == final(self).spec_edge_times(src, dst)
            },
            old(self).owner_of(src) == old(self).owner_of(dst) ==> final(self).shards@[final(self).owner_of(src)].spec_edge(src, dst).kind == EdgeKind::Local,
    {
        let s_src = shard_of(src, self.nr_shards);
        let s_dst = shard_of(dst, self.nr_shards);
        let ghost pre = *self;
        proof {
            pre.lemma_pairs_union_card(None, pre.nr());
            pre.lemma_pairs_union_is_global(None);
            if pre.shards@[s_src as int].spec_has_edge(src, dst) {
                let i = pre.shards@[s_src as int].edge_index(src, dst);
                assert(pre.edge_routed(s_src as int, pre.shards@[s_src as int].edges@[i]));
            }
            if pre.shards@[s_dst as int].spec_has_edge(src, dst) {
                let i = pre.shards@[s_dst as int].edge_index(src, dst);
                assert(pre.edge_routed(s_dst as int, pre.shards@[s_dst as int].edges@[i]));
            }
        }
        if s_src == s_dst {
            let shard = &mut self.shards[s_src];
            shard.add_edge_local(src, dst, t, props);
            proof {
                let s = s_src as int;
                assert(self.shards@ =~= pre.shards@.update(s, self.shards@[s]));
                let sh_pre = pre.shards@[s];
                let sh = self.shards@[s];
                let added = Set::<u64>::empty().insert(src).insert(dst);
                assert(sh.vertex_set() =~= sh_pre.vertex_set().union(added));
                assert(added.len() <= 2);
                self.lemma_shard_update_vertices(pre, s, added);
                assert(self.vertex_set() =~= pre.vertex_set().insert(src).insert(dst));
                assert(self.spec_has_edge(src, dst));
                assert(self.owner_of(src) == s && self.owner_of(dst) == s);
                if !pre.shards@[s].spec_has_vertex(src) {
                    assert(sh.spec_vertex(src).props.as_map() =~= Map::<
                        Seq<char>,
                        Seq<(i64, Prop)>,
                    >::empty());
                }
                if src != dst && !pre.shards@[s].spec_has_vertex(dst) {
                    assert(sh.spec_vertex(dst).props.as_map() =~= Map::<
                        Seq<char>,
                        Seq<(i64, Prop)>,
                    >::empty());
                }
                assert forall|g: u64|
                    g != src && g != dst implies (#[trigger] self.spec_has_vertex(g)
                    == pre.spec_has_vertex(g) && (pre.spec_has_vertex(g)
                    ==> self.shards@[self.owner_of(g)].spec_vertex(g)
                    == pre.shards@[pre.owner_of(g)].spec_vertex(g))) by {
                    let q = pre.owner_of(g);
                    assert(0 <= q < pre.nr());
                    if q != s {
                        assert(self.shards@[q] == pre.shards@[q]);
                    }
                }
                assert forall|a: u64, b: u64| !(a == src && b == dst) implies #[trigger] self.spec_has_edge(
                    a,
                    b,
                ) == pre.spec_has_edge(a, b) && (pre.spec_has_edge(a, b) ==> self.spec_edge_times(
                    a,
                    b,
                ) == pre.spec_edge_times(a, b)) by {
                    let q = pre.owner_of(a);
                    assert(0 <= q < pre.nr());
                    if q != s {
                        assert(self.shards@[q] == pre.shards@[q]);
                    }
                }
                assert forall|q: int, i: int|
                    0 <= q < self.nr() && 0 <= i < self.shards@[q].edges@.len() implies
                    self.edge_routed(q, (#[trigger] self.shards@[q].edges@[i])) && self.pair_ok(
                    q,
                    i,
                ) by {
                    let e = self.shards@[q].edges@[i];
                    self.shards@[q].lemma_edge_entry_canonical(i);
                    if q == s {
                        if e.src == src && e.dst == dst {
                            assert(e == sh.spec_edge(src, dst));
                            assert(e.kind == EdgeKind::Local);
                        } else {
                            assert(sh_pre.spec_has_edge(e.src, e.dst) && sh_pre.spec_edge(
                                e.src,
                                e.dst,
                            ) == e);
                            let j = sh_pre.edge_index(e.src, e.dst);
                            assert(pre.edge_routed(s, pre.shards@[s].edges@[j]));
                            assert(pre.pair_ok(s, j));
                            if e.kind == EdgeKind::OutHalf {
                                assert(self.shards@[self.owner_of(e.dst)] == pre.shards@[pre.owner_of(
                                    e.dst,
                                )]);
                            }
                            if e.kind == EdgeKind::InHalf {
                                assert(self.shards@[self.owner_of(e.src)] == pre.shards@[pre.owner_of(
                                    e.src,
                                )]);
                            }
                        }
                    } else {
                        assert(self.shards@[q] == pre.shards@[q]);
                        assert(pre.edge_routed(q, pre.shards@[q].edges@[i]));
                        assert(pre.pair_ok(q, i));
                        if e.kind == EdgeKind::OutHalf {
                            let o = pre.owner_of(e.dst);
                            if o == s {
                                assert(!(e.src == src && e.dst == dst)) by {
                                    assert(pre.owner_of(e.src) == q);
                                }
                            } else {
                                assert(self.shards@[o] == pre.shards@[o]);
                            }
                        }
                        if e.kind == EdgeKind::InHalf {
                            let o = pre.owner_of(e.src);
                            if o == s {
                                assert(!(e.src == src && e.dst == dst)) by {
                                    assert(pre.owner_of(e.dst) == q);
                                }
                            } else {
                                assert(self.shards@[o] == pre.shards@[o]);
                            }
                        }
                    }
                }
                assert(crate::shard::has_event_in(self.spec_edge_times(src, dst), None)) by {
                    let times = self.spec_edge_times(src, dst);
                    assert(times.len() >= 1);
                    assert(in_window(None, times[times.len() - 1]));
                }
                assert forall|p: (u64, u64)| self.spec_logical_pairs(None).contains(p) implies
                    pre.spec_logical_pairs(None).insert((src, dst)).contains(p) by {
                    if !(p.0 == src && p.1 == dst) {
                        assert(self.spec_has_edge(p.0, p.1) == pre.spec_has_edge(p.0, p.1));
                    }
                }
                assert forall|p: (u64, u64)| pre.spec_logical_pairs(None).insert(
                    (src, dst),
                ).contains(p) implies self.spec_logical_pairs(None).contains(p) by {
                    if !(p.0 == src && p.1 == dst) {
                        assert(self.spec_has_edge(p.0, p.1) == pre.spec_has_edge(p.0, p.1));
                    }
                }
                assert(self.spec_logical_pairs(None) =~= pre.spec_logical_pairs(None).insert(
                    (src, dst),
                ));
                assert(self.spec_logical_pairs(None).len() <= usize::MAX);
            }
        } else {
            let shard = &mut self.shards[s_src];
            shard.add_edge_out_half(src, dst, t, props);
            let ghost mid = *self;
            let shard2 = &mut self.shards[s_dst];
            shard2.add_edge_in_half(src, dst, t, props);
            proof {
                let sa = s_src as int;
                let sb = s_dst as int;
                assert(mid.shards@ =~= pre.shards@.update(sa, mid.shards@[sa]));
                assert(self.shards@ =~= mid.shards@.update(sb, self.shards@[sb]));
                assert(self.shards@[sa] == mid.shards@[sa]);
                let out_pre = pre.shards@[sa];
                let out_post = self.shards@[sa];
                let in_pre = pre.shards@[sb];
                let in_post = self.shards@[sb];
                assert(in_pre == mid.shards@[sb]);
                // the two halves agree before the call
                if out_pre.spec_has_edge(src, dst) {
                    let j = out_pre.edge_index(src, dst);
                    assert(pre.pair_ok(sa, j));
                    assert(in_pre.spec_has_edge(src, dst));
                    assert(in_pre.spec_edge(src, dst).times@ == out_pre.spec_edge(src, dst).times@);
                    assert(in_pre.spec_edge(src, dst).props.as_map() == out_pre.spec_edge(
                        src,
                        dst,
                    ).props.as_map());
                }
                if in_pre.spec_has_edge(src, dst) {
                    let j = in_pre.edge_index(src, dst);
                    assert(pre.pair_ok(sb, j));
                    assert(out_pre.spec_has_edge(src, dst));
                }
                // vertex sets: first src into its shard, then dst into its
                let added_a = Set::<u64>::empty().insert(src);
                assert(mid.shards@[sa].vertex_set() =~= out_pre.vertex_set().union(added_a));
                mid.lemma_shard_update_vertices(pre, sa, added_a);
                let added_b = Set::<u64>::empty().insert(dst);
                assert(self.shards@[sb].vertex_set() =~= in_pre.vertex_set().union(added_b));
                self.lemma_shard_update_vertices(mid, sb, added_b);
                assert(self.vertex_set() =~= pre.vertex_set().insert(src).insert(dst));
                assert(self.spec_has_vertex(src)) by {
                    assert(mid.shards@[sa].spec_has_vertex(src));
                    assert(self.shards@[sa].spec_has_vertex(src));
                }
                assert(self.spec_has_edge(src, dst));
                assert(self.owner_of(src) == sa && self.owner_of(dst) == sb);
                assert(self.shards@[sa].spec_vertex(src) == mid.shards@[sa].spec_vertex(src));
                assert(mid.shards@[sa].spec_vertex(src).times@ == (if out_pre.spec_has_vertex(src) {
                    out_pre.spec_vertex(src).times@.push(t)
                } else {
                    seq![t]
                }));
                if !out_pre.spec_has_vertex(src) {
                    assert(mid.shards@[sa].spec_vertex(src).props.as_map() =~= Map::<
                        Seq<char>,
                        Seq<(i64, Prop)>,
                    >::empty());
                }
                if !in_pre.spec_has_vertex(dst) {
                    assert(self.shards@[sb].spec_vertex(dst).props.as_map() =~= Map::<
                        Seq<char>,
                        Seq<(i64, Prop)>,
                    >::empty());
                }
                assert forall|g: u64|
                    g != src && g != dst implies (#[trigger] self.spec_has_vertex(g)
                    == pre.spec_has_vertex(g) && (pre.spec_has_vertex(g)
                    ==> self.shards@[self.owner_of(g)].spec_vertex(g)
                    == pre.shards@[pre.owner_of(g)].spec_vertex(g))) by {
                    let q = pre.owner_of(g);
                    assert(0 <= q < pre.nr());
                    if q == sa {
                        assert(self.shards@[sa] == mid.shards@[sa]);
                    } else if q == sb {
                        assert(mid.shards@[sb] == pre.shards@[sb]);
                    } else {
                        assert(self.shards@[q] == pre.shards@[q]);
                    }
                }
                assert forall|a: u64, b: u64| !(a == src && b == dst) implies #[trigger] self.spec_has_edge(
                    a,
                    b,
                ) == pre.spec_has_edge(a, b) && (pre.spec_has_edge(a, b) ==> self.spec_edge_times(
                    a,
                    b,
                ) == pre.spec_edge_times(a, b)) by {
                    let q = pre.owner_of(a);
                    assert(0 <= q < pre.nr());
                    if q != sa && q != sb {
                        assert(self.shards@[q] == pre.shards@[q]);
                    }
                }
                assert forall|q: int, i: int|
                    0 <= q < self.nr() && 0 <= i < self.shards@[q].edges@.len() implies
                    self.edge_routed(q, (#[trigger] self.shards@[q].edges@[i])) && self.pair_ok(
                    q,
                    i,
                ) by {
                    let e = self.shards@[q].edges@[i];
                    self.shards@[q].lemma_edge_entry_canonical(i);
                    if q == sa && e.src == src && e.dst == dst {
                        assert(e == out_post.spec_edge(src, dst));
                        assert(e.kind == EdgeKind::OutHalf);
                        assert(in_post.spec_has_edge(src, dst));
                        assert(in_post.spec_edge(src, dst).kind == EdgeKind::InHalf);
                        assert(in_post.spec_edge(src, dst).times@ == e.times@);
                        assert(in_post.spec_edge(src, dst).props.as_map() == e.props.as_map());
                    } else if q == sb && e.src == src && e.dst == dst {
                        assert(e == in_post.spec_edge(src, dst));
                        assert(e.kind == EdgeKind::InHalf);
                        assert(out_post.spec_has_edge(src, dst));
                        assert(out_post.spec_edge(src, dst).kind == EdgeKind::OutHalf);
                        assert(out_post.spec_edge(src, dst).times@ == e.times@);
                        assert(out_post.spec_edge(src, dst).props.as_map() == e.props.as_map());
                    } else {
                        // an untouched pair: it equals its old entry, whose
                        // partner pair is also untouched
                        if q == sa {
                            assert(out_pre.spec_has_edge(e.src, e.dst) && out_pre.spec_edge(
                                e.src,
                                e.dst,
                            ) == e);
                            let j = out_pre.edge_index(e.src, e.dst);
                            assert(pre.edge_routed(sa, pre.shards@[sa].edges@[j]));
                            assert(pre.pair_ok(sa, j));
                        } else if q == sb {
                            assert(in_pre.spec_has_edge(e.src, e.dst) && in_pre.spec_edge(
                                e.src,
                                e.dst,
                            ) == e);
                            let j = in_pre.edge_index(e.src, e.dst);
                            assert(pre.edge_routed(sb, pre.shards@[sb].edges@[j]));
                            assert(pre.pair_ok(sb, j));
                        } else {
                            assert(self.shards@[q] == pre.shards@[q]);
                            assert(pre.edge_routed(q, pre.shards@[q].edges@[i]));
                            assert(pre.pair_ok(q, i));
                        }
                        if e.kind == EdgeKind::OutHalf {
                            let o = pre.owner_of(e.dst);
                            assert(pre.shards@[o].spec_has_edge(e.src, e.dst));
                            if o == sa || o == sb {
                                assert(!(e.src == src && e.dst == dst));
                                if o == sa {
                                    assert(self.shards@[o].spec_has_edge(e.src, e.dst)
                                        == out_pre.spec_has_edge(e.src, e.dst));
                                }
                            } else {
                                assert(self.shards@[o] == pre.shards@[o]);
                            }
                        }
                        if e.kind == EdgeKind::InHalf {
                            let o = pre.owner_of(e.src);
                            assert(pre.shards@[o].spec_has_edge(e.src, e.dst));
                            if o == sa || o == sb {
                                assert(!(e.src == src && e.dst == dst));
                            } else {
                                assert(self.shards@[o] == pre.shards@[o]);
                            }
                        }
                    }
                }
                assert(crate::shard::has_event_in(self.spec_edge_times(src, dst), None)) by {
                    let times = self.spec_edge_times(src, dst);
                    assert(times.len() >= 1);
                    assert(in_window(None, times[times.len() - 1]));
                }
                assert forall|p: (u64, u64)| self.spec_logical_pairs(None).contains(p) implies
                    pre.spec_logical_pairs(None).insert((src, dst)).contains(p) by {
                    if !(p.0 == src && p.1 == dst) {
                        assert(self.spec_has_edge(p.0, p.1) == pre.spec_has_edge(p.0, p.1));
                    }
                }
                assert forall|p: (u64, u64)| pre.spec_logical_pairs(None).insert(
                    (src, dst),
                ).contains(p) implies self.spec_logical_pairs(None).contains(p) by {
                    if !(p.0 == src && p.1 == dst) {
                        assert(self.spec_has_edge(p.0, p.1) == pre.spec_has_edge(p.0, p.1));
                    }
                }
                assert(self.spec_logical_pairs(None) =~= pre.spec_logical_pairs(None).insert(
                    (src, dst),
                ));
                assert(self.spec_logical_pairs(None).len() <= usize::MAX);
            }
        }
    }

    /// Count the logical edges with at least one occurrence inside the
    /// window. A cross-shard edge is counted once, in its source's shard.
    pub fn count_edges(&self, w: Window) -> (r: usize)
        requires
            self.wf(),
        ensures
            r == self.spec_logical_pairs(w).len(),
            self.spec_logical_pairs(w).finite(),
    {
        proof {
            self.lemma_pairs_union_card(w, self.nr());
            self.lemma_pairs_union_is_global(w);
            self.lemma_pairs_union_card(None, self.nr());
            self.lemma_pairs_union_is_global(None);
        }
        let mut r: usize = 0;
        let mut s: usize = 0;
        while s < self.nr_shards
            invariant
                self.wf(),
                s <= self.nr_shards,
                r == self.sum_edge_counts(w, s as int),
                self.sum_edge_counts(w, s as int) <= self.spec_logical_pairs(None).len(),
            decreases self.nr_shards - s,
        {
            proof {
                self.lemma_pairs_union_card(w, s as int);
                self.lemma_pairs_union_card(w, s + 1);
                self.lemma_pairs_union_card(None, self.nr());
                self.lemma_pairs_union_is_global(None);
                assert forall|p: (u64, u64)| self.pairs_union_upto(w, s + 1).contains(p) implies
                    self.spec_logical_pairs(None).contains(p) by {
                    let q = choose|q: int|
                        0 <= q < s + 1 && (#[trigger] self.shards@[q]).spec_logical_pairs(
                            w,
                        ).contains(p);
                    self.lemma_logical_pair_owner(w, q, p);
                    let sh = self.shards@[q];
                    let i = choose|i: int|
                        0 <= i < sh.edges@.len() && (#[trigger] sh.edges@[i]).src == p.0
                            && sh.edges@[i].dst == p.1 && crate::shard::edge_logical_in(
                            sh.edges@[i],
                            w,
                        );
                    let k = choose|k: int|
                        0 <= k < sh.edges@[i].times@.len() && in_window(w, sh.edges@[i].times@[k]);
                    assert(in_window(None, sh.edges@[i].times@[k]));
                    assert(crate::shard::has_event_in(self.spec_edge_times(p.0, p.1), None));
                }
                vstd::set_lib::lemma_len_subset(
                    self.pairs_union_upto(w, s + 1),
                    self.spec_logical_pairs(None),
                );
            }
            r = r + self.shards[s].count_edges(w);
            s += 1;
        }
        proof {
            self.lemma_pairs_union_card(w, self.nr());
            self.lemma_pairs_union_is_global(w);
        }
        r
    }

    /// The neighbourhood of `v`: all edges incident to a vertex, half-edges
    /// included, live in its own shard.
    pub open spec fn spec_neighbour_set(self, v: u64, dir: Direction, w: Window) -> Set<u64> {
        self.shards@[self.owner_of(v)].neighbour_set(v, dir, w)
    }

    /// The event times of vertex `v`.
    pub open spec fn spec_vertex_times(self, v: u64) -> Seq<i64> {
        self.shards@[self.owner_of(v)].spec_vertex(v).times@
    }

    /// The number of distinct neighbours of `v` along `dir` that share an
    /// edge event inside the window.
    pub fn degree(&self, v: u64, dir: Direction, w: Window) -> (r: usize)
        requires
            self.wf(),
        ensures
            r == self.spec_neighbour_set(v, dir, w).len(),
            self.spec_neighbour_set(v, dir, w).finite(),
    {
        let s = shard_of(v, self.nr_shards);
        self.shards[s].degree(v, dir, w)
    }

    /// The distinct neighbours of `v` along `dir` with an edge event in the
    /// window, each exactly once.
    pub fn neighbours(&self, v: u64, dir: Direction, w: Window) -> (r: Vec<u64>)
        requires
            self.wf(),
        ensures
            r@.no_duplicates(),
            r@.to_set() == self.spec_neighbour_set(v, dir, w),
    {
        let s = shard_of(v, self.nr_shards);
        self.shards[s].neighbours(v, dir, w)
    }

    /// The time of the first recorded event of `v`, if the vertex exists.
    pub fn earliest_time(&self, v: u64) -> (r: Option<i64>)
        requires
            self.wf(),
        ensures
            match r {
                Some(m) => self.spec_has_vertex(v) && m == seq_min(self.spec_vertex_times(v)),
                None => !self.spec_has_vertex(v),
            },
    {
        let s = shard_of(v, self.nr_shards);
        self.shards[s].earliest_time_of(v)
    }

    /// The time of the last recorded event of `v`, if the vertex exists.
    pub fn latest_time(&self, v: u64) -> (r: Option<i64>)
        requires
            self.wf(),
        ensures
            match r {
                Some(m) => self.spec_has_vertex(v) && m == seq_max(self.spec_vertex_times(v)),
                None => !self.spec_has_vertex(v),
            },
    {
        let s = shard_of(v, self.nr_shards);
        self.shards[s].latest_time_of(v)
    }

    /// The event times of `v` inside the window, in recorded order.
    pub fn history(&self, v: u64, w: Window) -> (r: Vec<i64>)
        requires
            self.wf(),
        ensures
            self.spec_has_vertex(v) ==> r@ == filter_window(self.spec_vertex_times(v), w),
            !self.spec_has_vertex(v) ==> r@.len() == 0,
    {
        let s = shard_of(v, self.nr_shards);
        self.shards[s].history(v, w)
    }

    /// A vertex's first event never comes after its last: every stored
    /// vertex has at least one event, and the minimum of a non-empty
    /// sequence is at most its maximum.
    pub proof fn lemma_earliest_le_latest(self, v: u64)
        requires
            self.wf(),
            self.spec_has_vertex(v),
        ensures
            seq_min(self.spec_vertex_times(v)) <= seq_max(self.spec_vertex_times(v)),
    {
        let s = self.owner_of(v);
        assert(0 <= s < self.nr());
        let sh = self.shards@[s];
        let i = sh.vertex_index(v);
        assert(0 <= i < sh.vertices@.len() && sh.vertices@[i].gid == v);
        assert(sh.vertices@[i].times@.len() > 0);
        crate::shard::lemma_min_max(self.spec_vertex_times(v));
    }

    /// Windowed degree is monotonic: a window nested inside another never
    /// shows more neighbours.
    pub proof fn lemma_degree_monotonic(
        self,
        v: u64,
        dir: Direction,
        s1: i64,
        e1: i64,
        s2: i64,
        e2: i64,
    )
        requires
            self.wf(),
            s1 <= s2,
            e2 <= e1,
        ensures
            self.spec_neighbour_set(v, dir, Some((s2, e2))).len() <= self.spec_neighbour_set(
                v,
                dir,
                Some((s1, e1)),
            ).len(),
    {
        let s = self.owner_of(v);
        assert(0 <= s < self.nr());
        self.shards@[s].lemma_degree_monotonic(v, dir, Some((s1, e1)), Some((s2, e2)));
    }

    /// The vertices with at least one event inside the window.
    pub open spec fn spec_active_set(self, w: Window) -> Set<u64> {
        Set::new(
            |g: u64|
                self.spec_has_vertex(g) && crate::shard::has_event_in(self.spec_vertex_times(g), w),
        )
    }

    /// Count the vertices with at least one event inside the window.
    pub fn count_vertices(&self, w: Window) -> (r: usize)
        requires
            self.wf(),
        ensures
            r == self.spec_active_set(w).len(),
            self.spec_active_set(w).finite(),
    {
        let mut r: usize = 0;
        let mut s: usize = 0;
        proof {
            self.lemma_shards_disjoint();
            assert(self.active_union_upto(w, 0) =~= Set::<u64>::empty());
        }
        while s < self.nr_shards
            invariant
                self.wf(),
                s <= self.nr_shards,
                self.active_union_upto(w, s as int).finite(),
                r == self.active_union_upto(w, s as int).len(),
                self.active_union_upto(w, s as int).subset_of(self.vertex_set()),
            decreases self.nr_shards - s,
        {
            proof {
                self.lemma_shards_disjoint();
                lemma_union_upto_card(self.shards@, self.nr());
                vstd::set_lib::lemma_len_subset(
                    self.active_union_upto(w, s as int),
                    self.vertex_set(),
                );
            }
            let c = self.count_active(s, w);
            proof {
                let a = self.active_union_upto(w, s as int);
                let b = self.shards@[s as int].active_set(w);
                assert(a.disjoint(b)) by {
                    assert forall|g: u64| b.contains(g) implies self.owner_of(g) == s as int by {
                        assert(self.shards@[s as int].spec_has_vertex(g));
                    }
                    assert forall|g: u64| a.contains(g) implies !b.contains(g) by {
                        let q = choose|q: int|
                            0 <= q < s as int && #[trigger] self.shards@[q].active_set(w).contains(
                                g,
                            );
                        assert(self.shards@[q].spec_has_vertex(g));
                    }
                }
                assert(self.active_union_upto(w, s + 1) =~= a + b);
                vstd::set_lib::lemma_set_disjoint_lens(a, b);
                assert forall|g: u64| self.active_union_upto(w, s + 1).contains(g) implies
                    self.vertex_set().contains(g) by {
                    let q = choose|q: int|
                        0 <= q < s + 1 && #[trigger] self.shards@[q].active_set(w).contains(g);
                    assert(self.shards@[q].spec_has_vertex(g));
                }
                vstd::set_lib::lemma_len_subset(
                    self.active_union_upto(w, s + 1),
                    self.vertex_set(),
                );
                lemma_union_upto_card(self.shards@, self.nr());
            }
            r = r + c;
            s += 1;
        }
        proof {
            assert forall|g: u64| self.active_union_upto(w, self.nr()).contains(g) implies
                self.spec_active_set(w).contains(g) by {
                let q = choose|q: int|
                    0 <= q < self.nr() && #[trigger] self.shards@[q].active_set(w).contains(g);
                assert(self.shards@[q].spec_has_vertex(g));
                self.lemma_shards_disjoint();
                assert(self.owner_of(g) == q);
            }
            assert forall|g: u64| self.spec_active_set(w).contains(g) implies
                self.active_union_upto(w, self.nr()).contains(g) by {
                let q = self.owner_of(g);
                assert(0 <= q < self.nr());
                assert(self.shards@[q].active_set(w).contains(g));
            }
            assert(self.active_union_upto(w, self.nr()) =~= self.spec_active_set(w));
        }
        r
    }

    /// Every vertex id of the store, each exactly once, grouped by shard
    /// and in local-id order within a shard.
    pub fn vertices(&self) -> (r: Vec<u64>)
        requires
            self.wf(),
        ensures
            r@.no_duplicates(),
            r@.to_set() == self.vertex_set(),
            r@ == gids_in_order(self.shards@, self.nr()),
    {
        let mut r: Vec<u64> = Vec::new();
        let mut s: usize = 0;
        proof {
            assert(r@.to_set() =~= union_upto(self.shards@, 0));
            assert(r@ =~= gids_in_order(self.shards@, 0));
        }
        while s < self.nr_shards
            invariant
                self.wf(),
                s <= self.nr_shards,
                r@.no_duplicates(),
                r@.to_set() == union_upto(self.shards@, s as int),
                r@ == gids_in_order(self.shards@, s as int),
            decreases self.nr_shards - s,
        {
            let ghost prev = r@;
            let mut gs = self.shards[s].vertex_gids();
            r.append(&mut gs);
            proof {
                let sh = self.shards@[s as int];
                self.lemma_shards_disjoint();
                assert(r@ == prev + sh.gid_seq());
                assert forall|i: int, j: int|
                    0 <= i < prev.len() && 0 <= j < sh.gid_seq().len() implies prev[i]
                    != sh.gid_seq()[j] by {
                    assert(prev.to_set().contains(prev[i]));
                    let q = choose|q: int|
                        0 <= q < s as int && (#[trigger] self.shards@[q]).spec_has_vertex(prev[i]);
                    assert(sh.vertices@[j].gid == sh.gid_seq()[j]);
                    if prev[i] == sh.gid_seq()[j] {
                        assert(sh.spec_has_vertex(prev[i]));
                    }
                }
                vstd::seq_lib::lemma_no_dup_in_concat(prev, sh.gid_seq());
                assert forall|g: u64| r@.to_set().contains(g) implies union_upto(
                    self.shards@,
                    s + 1,
                ).contains(g) by {
                    let i = choose|i: int| 0 <= i < r@.len() && r@[i] == g;
                    if i < prev.len() {
                        assert(prev[i] == g);
                        assert(prev.to_set().contains(g));
                    } else {
                        assert(sh.gid_seq()[i - prev.len()] == g);
                        assert(sh.vertices@[i - prev.len()].gid == g);
                        assert(sh.spec_has_vertex(g));
                    }
                }
                assert forall|g: u64| union_upto(self.shards@, s + 1).contains(g) implies
                    r@.to_set().contains(g) by {
                    let q = choose|q: int|
                        0 <= q < s + 1 && (#[trigger] self.shards@[q]).spec_has_vertex(g);
                    if q < s as int {
                        assert(prev.to_set().contains(g));
                        let i = choose|i: int| 0 <= i < prev.len() && prev[i] == g;
                        assert(r@[i] == g);
                    } else {
                        let j = choose|j: int|
                            0 <= j < sh.vertices@.len() && sh.vertices@[j].gid == g;
                        assert(sh.gid_seq()[j] == g);
                        assert(r@[prev.len() + j] == g);
                    }
                }
                assert(r@.to_set() =~= union_upto(self.shards@, s + 1));
                assert(r@ =~= gids_in_order(self.shards@, s + 1));
            }
            s += 1;
        }
        r
    }

    /// The active vertices of the first `k` shards.
    pub open spec fn active_union_upto(self, w: Window, k: int) -> Set<u64> {
        Set::new(
            |g: u64|
                exists|s: int|
                    0 <= s < k && #[trigger] self.shards@[s].active_set(w).contains(g),
        )
    }

    /// Count the active vertices of shard `s`.
    fn count_active(&self, s: usize, w: Window) -> (r: usize)
        requires
            self.wf(),
            s < self.nr_shards,
        ensures
            r == self.shards@[s as int].active_set(w).len(),
            self.shards@[s as int].active_set(w).finite(),
    {
        self.shards[s].count_active(w)
    }
}

} // verus!
