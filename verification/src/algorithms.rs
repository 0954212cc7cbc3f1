//! Structural metrics built on the store's windowed queries.
//!
//! The store works in exact arithmetic, so ratios (centrality scores, graph
//! density) are returned as rational numbers; a caller that wants a float
//! divides the two components itself. A rational with denominator zero
//! stands where the float formula would divide by zero.

use crate::graph::GraphDB;
use crate::shard::Direction;
use crate::view::WindowedGraph;
use vstd::prelude::*;

verus! {

/// An exact ratio. The denominator may be zero: such a value records that
/// the defining formula divided by zero.
#[derive(Clone, Copy, Debug, PartialEq, Eq, Structural)]
pub struct Rational {
    pub num: u128,
    pub den: u128,
}

/// The result of an algorithm: one value per vertex id.
pub struct AlgorithmResult {
    pub values: Vec<(u64, Rational)>,
}

impl AlgorithmResult {
    pub fn get_all(&self) -> (r: &Vec<(u64, Rational)>)
        ensures
            r == &self.values,
    {
        &self.values
    }
}

/// The undirected, unwindowed degree of `v`.
pub open spec fn spec_degree_of(g: GraphDB, v: u64) -> int {
    g.spec_neighbour_set(v, Direction::Both, None).len() as int
}

/// The centrality score of `v`: its degree over the graph's maximum degree,
/// and zero when the maximum degree is zero.
pub open spec fn spec_centrality(g: GraphDB, md: int, v: u64) -> Rational {
    if md == 0 {
        Rational { num: 0, den: 1 }
    } else {
        Rational { num: spec_degree_of(g, v) as u128, den: md as u128 }
    }
}

/// The largest undirected degree over all vertices of the graph; zero for a
/// graph without vertices.
pub fn max_degree(g: &GraphDB) -> (r: usize)
    requires
        g.wf(),
    ensures
        is_max_degree(*g, r as int),
{
    let vs = g.vertices();
    let mut r: usize = 0;
    let mut i: usize = 0;
    while i < vs.len()
        invariant
            g.wf(),
            i <= vs@.len(),
            vs@.to_set() == g.vertex_set(),
            forall|j: int| 0 <= j < i ==> spec_degree_of(*g, vs@[j]) <= r,
            r != 0 ==> exists|v: u64| g.spec_has_vertex(v) && spec_degree_of(*g, v) == r,
        decreases vs@.len() - i,
    {
        let d = g.degree(vs[i], Direction::Both, None);
        if d > r {
            r = d;
            proof {
                assert(vs@.to_set().contains(vs@[i as int]));
                g.lemma_vertex_set_contains(vs@[i as int]);
            }
        }
        i += 1;
    }
    proof {
        assert forall|v: u64| g.spec_has_vertex(v) implies spec_degree_of(*g, v) <= r by {
            g.lemma_vertex_set_contains(v);
            assert(vs@.to_set().contains(v));
            let j = choose|j: int| 0 <= j < vs@.len() && vs@[j] == v;
            assert(spec_degree_of(*g, vs@[j]) <= r);
        }
    }
    r
}

/// The degree centrality of every vertex: its degree divided by the largest
/// degree in the graph, as an exact ratio, and zero where that division has
/// no value. One entry per vertex, in the order `vertices` reports them.
pub fn degree_centrality(g: &GraphDB, threads: Option<usize>) -> (r: AlgorithmResult)
    requires
        g.wf(),
    ensures
        r.values@.len() == g.vertex_set().len(),
        r.values@.map_values(|p: (u64, Rational)| p.0).to_set() == g.vertex_set(),
        forall|md: int|
            #[trigger] is_max_degree(*g, md) ==> forall|i: int|
                0 <= i < r.values@.len() ==> (#[trigger] r.values@[i]).1 == spec_centrality(
                    *g,
                    md,
                    r.values@[i].0,
                ),
{
    let md = max_degree(g);
    let vs = g.vertices();
    let mut values: Vec<(u64, Rational)> = Vec::new();
    let mut i: usize = 0;
    proof {
        vs@.unique_seq_to_set();
        g.lemma_shards_disjoint();
        crate::graph::lemma_union_upto_card(g.shards@, g.nr());
    }
    while i < vs.len()
        invariant
            g.wf(),
            i <= vs@.len(),
            vs@.to_set() == g.vertex_set(),
            values@.len() == i,
            is_max_degree(*g, md as int),
            forall|j: int| 0 <= j < i ==> (#[trigger] values@[j]).0 == vs@[j],
            forall|j: int|
                0 <= j < i ==> (#[trigger] values@[j]).1 == spec_centrality(
                    *g,
                    md as int,
                    vs@[j],
                ),
        decreases vs@.len() - i,
    {
        let v = vs[i];
        let value = if md == 0 {
            Rational { num: 0, den: 1 }
        } else {
            let d = g.degree(v, Direction::Both, None);
            Rational { num: d as u128, den: md as u128 }
        };
        values.push((v, value));
        i += 1;
    }
    proof {
        assert(values@.map_values(|p: (u64, Rational)| p.0) =~= vs@);
        assert(vs@.len() == vs@.to_set().len()) by {
            vs@.unique_seq_to_set();
        }
        assert forall|md2: int| #[trigger] is_max_degree(*g, md2) implies forall|j: int|
            0 <= j < values@.len() ==> (#[trigger] values@[j]).1 == spec_centrality(
                *g,
                md2,
                values@[j].0,
            ) by {
            lemma_max_degree_unique(*g, md2, md as int);
        }
    }
    AlgorithmResult { values }
}

/// `md` is the graph's maximum undirected degree: no vertex exceeds it and,
/// unless it is zero, some vertex attains it.
pub open spec fn is_max_degree(g: GraphDB, md: int) -> bool {
    &&& md >= 0
    &&& forall|v: u64| g.spec_has_vertex(v) ==> spec_degree_of(g, v) <= md
    &&& md != 0 ==> exists|v: u64| g.spec_has_vertex(v) && spec_degree_of(g, v) == md
}

/// Two values that both satisfy the maximum-degree description agree.
pub proof fn lemma_max_degree_unique(g: GraphDB, a: int, b: int)
    requires
        is_max_degree(g, a),
        is_max_degree(g, b),
    ensures
        a == b,
{
    if a != 0 {
        let v = choose|v: u64| g.spec_has_vertex(v) && spec_degree_of(g, v) == a;
        assert(spec_degree_of(g, v) <= b);
    }
    if b != 0 {
        let v = choose|v: u64| g.spec_has_vertex(v) && spec_degree_of(g, v) == b;
        assert(spec_degree_of(g, v) <= a);
    }
}

/// The density of a directed graph under a view: the number of edges with an
/// event in the window over `n * (n - 1)`, where `n` counts the vertices
/// active in the window. The ratio is exact; a denominator of zero records
/// the undefined case.
pub fn directed_graph_density(graph: &WindowedGraph<'_>) -> (r: Rational)
    requires
        graph.wf(),
    ensures
        r.num == graph.graph.spec_logical_pairs(graph.window).len(),
        r.den == graph.graph.spec_active_set(graph.window).len() * (
        graph.graph.spec_active_set(graph.window).len() - 1),
{
    let edges = graph.count_edges();
    let n = graph.count_vertices();
    let num = edges as u128;
    let nn = n as u128;
    proof {
        assert(nn < 0x10000000000000000u128);
        assert(nn >= 1 ==> nn * (nn - 1) <= u128::MAX) by (nonlinear_arith)
            requires
                nn < 0x10000000000000000u128,
        ;
    }
    let den = if n == 0 {
        0u128
    } else {
        nn * (nn - 1)
    };
    proof {
        let sn = graph.graph.spec_active_set(graph.window).len() as int;
        if n == 0 {
            assert(sn == 0);
            assert(sn * (sn - 1) == 0) by (nonlinear_arith)
                requires
                    sn == 0,
            ;
        }
    }
    Rational { num, den }
}

} // verus!
