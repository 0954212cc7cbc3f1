//! Windowed, read-only projections of the store.
//!
//! A view carries an optional half-open time window [start, end) over a
//! borrowed store; structural queries evaluate the window lazily against the
//! edge and vertex event histories. Composing two windows intersects them,
//! and an empty intersection yields a view whose queries all report nothing.

use crate::graph::GraphDB;
use crate::props::Prop;
use crate::shard::{filter_window, in_window, seq_max, seq_min, Direction, Window};
use vstd::prelude::*;
use vstd::string::StringExecFns;

verus! {

/// The window containing exactly the instants inside both arguments.
pub open spec fn spec_intersect(a: Window, b: Window) -> Window {
    match (a, b) {
        (None, w) => w,
        (w, None) => w,
        (Some((s1, e1)), Some((s2, e2))) => Some(
            ((if s1 >= s2 {
                s1
            } else {
                s2
            }), (if e1 <= e2 {
                e1
            } else {
                e2
            })),
        ),
    }
}

/// Intersect two windows.
pub fn intersect(a: Window, b: Window) -> (r: Window)
    ensures
        r == spec_intersect(a, b),
        forall|t: i64| in_window(r, t) == (in_window(a, t) && in_window(b, t)),
{
    match (a, b) {
        (None, w) => w,
        (w, None) => w,
        (Some((s1, e1)), Some((s2, e2))) => {
            let s = if s1 >= s2 {
                s1
            } else {
                s2
            };
            let e = if e1 <= e2 {
                e1
            } else {
                e2
            };
            Some((s, e))
        },
    }
}

/// A read-only projection of a store under an optional time window.
pub struct WindowedGraph<'a> {
    pub graph: &'a GraphDB,
    pub window: Window,
}

impl GraphDB {
    /// The view of this store restricted to events in [start, end).
    pub fn window(&self, start: i64, end: i64) -> (r: WindowedGraph<'_>)
        ensures
            r.graph == self,
            r.window == Some((start, end)),
    {
        WindowedGraph { graph: self, window: Some((start, end)) }
    }

    /// The view of this store restricted to events at or before `end`.
    pub fn at(&self, end: i64) -> (r: WindowedGraph<'_>)
        ensures
            r.graph == self,
            r.window == Some((i64::MIN, if end == i64::MAX {
                i64::MAX
            } else {
                (end + 1) as i64
            })),
    {
        let e = if end == i64::MAX {
            i64::MAX
        } else {
            end + 1
        };
        WindowedGraph { graph: self, window: Some((i64::MIN, e)) }
    }
}

impl<'a> WindowedGraph<'a> {
    pub open spec fn wf(self) -> bool {
        self.graph.wf()
    }

    /// Narrow this view to [start, end): the windows intersect.
    pub fn window(&self, start: i64, end: i64) -> (r: WindowedGraph<'a>)
        ensures
            r.graph == self.graph,
            r.window == spec_intersect(self.window, Some((start, end))),
    {
        WindowedGraph { graph: self.graph, window: intersect(self.window, Some((start, end))) }
    }

    /// The vertices with at least one event in the window.
    pub fn count_vertices(&self) -> (r: usize)
        requires
            self.wf(),
        ensures
            r == self.graph.spec_active_set(self.window).len(),
    {
        self.graph.count_vertices(self.window)
    }

    /// The logical edges with at least one occurrence in the window, each
    /// counted once.
    pub fn count_edges(&self) -> (r: usize)
        requires
            self.wf(),
        ensures
            r == self.graph.spec_logical_pairs(self.window).len(),
    {
        self.graph.count_edges(self.window)
    }

    /// The distinct in-window neighbours of `v` along `dir`.
    pub fn degree(&self, v: u64, dir: Direction) -> (r: usize)
        requires
            self.wf(),
        ensures
            r == self.graph.spec_neighbour_set(v, dir, self.window).len(),
    {
        self.graph.degree(v, dir, self.window)
    }

    /// The view of one vertex under this window.
    pub fn vertex(&self, v: u64) -> (r: Option<VertexView<'a>>)
        requires
            self.wf(),
        ensures
            match r {
                Some(view) => self.graph.spec_has_vertex(v) && view.graph == self.graph
                    && view.window == self.window && view.gid == v,
                None => !self.graph.spec_has_vertex(v),
            },
    {
        if self.graph.has_vertex(v) {
            Some(VertexView { graph: self.graph, window: self.window, gid: v })
        } else {
            None
        }
    }
}

/// The character for one decimal digit.
pub open spec fn digit_char(d: nat) -> char {
    if d == 0 {
        '0'
    } else if d == 1 {
        '1'
    } else if d == 2 {
        '2'
    } else if d == 3 {
        '3'
    } else if d == 4 {
        '4'
    } else if d == 5 {
        '5'
    } else if d == 6 {
        '6'
    } else if d == 7 {
        '7'
    } else if d == 8 {
        '8'
    } else {
        '9'
    }
}

/// The decimal digits of `n`, most significant first.
pub open spec fn dec_digits(n: nat) -> Seq<char>
    decreases n,
{
    if n < 10 {
        seq![digit_char(n)]
    } else {
        dec_digits(n / 10).push(digit_char(n % 10))
    }
}

fn digit_str(d: u64) -> (r: &'static str)
    requires
        d < 10,
    ensures
        r@ == seq![digit_char(d as nat)],
{
    proof {
        reveal_strlit("0");
        reveal_strlit("1");
        reveal_strlit("2");
        reveal_strlit("3");
        reveal_strlit("4");
        reveal_strlit("5");
        reveal_strlit("6");
        reveal_strlit("7");
        reveal_strlit("8");
        reveal_strlit("9");
    }
    let r = match d {
        0 => "0",
        1 => "1",
        2 => "2",
        3 => "3",
        4 => "4",
        5 => "5",
        6 => "6",
        7 => "7",
        8 => "8",
        _ => "9",
    };
    proof {
        assert(r@ =~= seq![digit_char(d as nat)]);
    }
    r
}

/// Render a vertex id in decimal.
pub fn decimal_string(n: u64) -> (r: String)
    ensures
        r@ == dec_digits(n as nat),
    decreases n,
{
    if n < 10 {
        String::from_str(digit_str(n))
    } else {
        let mut r = decimal_string(n / 10);
        r.append(digit_str(n % 10));
        proof {
            assert(r@ =~= dec_digits(n as nat));
        }
        r
    }
}

/// One vertex of the store seen through a window.
pub struct VertexView<'a> {
    pub graph: &'a GraphDB,
    pub window: Window,
    pub gid: u64,
}

/// Operations every vertex view offers.
pub trait VertexViewOps {
    /// The view is backed by a well-formed store.
    spec fn valid(&self) -> bool;

    /// The vertex's global id.
    fn id(&self) -> u64
        requires
            self.valid(),
    ;

    /// The vertex's name if one was set, otherwise its id rendered as text.
    fn name(&self) -> String
        requires
            self.valid(),
    ;

    /// The time of the vertex's first event, if it exists in the store.
    fn earliest_time(&self) -> Option<i64>
        requires
            self.valid(),
    ;

    /// The time of the vertex's last event, if it exists in the store.
    fn latest_time(&self) -> Option<i64>
        requires
            self.valid(),
    ;

    /// The vertex's event times inside the window.
    fn history(&self) -> Vec<i64>
        requires
            self.valid(),
    ;

    /// The number of distinct in-window neighbours, in either direction.
    fn degree(&self) -> usize
        requires
            self.valid(),
    ;

    /// The number of distinct in-window neighbours along incoming edges.
    fn in_degree(&self) -> usize
        requires
            self.valid(),
    ;

    /// The number of distinct in-window neighbours along outgoing edges.
    fn out_degree(&self) -> usize
        requires
            self.valid(),
    ;

    /// The in-window edges incident to this vertex, as (src, dst) pairs.
    fn edges(&self) -> Vec<(u64, u64)>
        requires
            self.valid(),
    ;

    /// The in-window edges pointing into this vertex.
    fn in_edges(&self) -> Vec<(u64, u64)>
        requires
            self.valid(),
    ;

    /// The in-window edges leaving this vertex.
    fn out_edges(&self) -> Vec<(u64, u64)>
        requires
            self.valid(),
    ;

    /// The distinct in-window neighbours, in either direction.
    fn neighbours(&self) -> Vec<u64>
        requires
            self.valid(),
    ;

    /// The distinct in-window neighbours along incoming edges.
    fn in_neighbours(&self) -> Vec<u64>
        requires
            self.valid(),
    ;

    /// The distinct in-window neighbours along outgoing edges.
    fn out_neighbours(&self) -> Vec<u64>
        requires
            self.valid(),
    ;
}

impl<'a> VertexView<'a> {
    pub open spec fn wf(self) -> bool {
        self.graph.wf()
    }

    pub fn id(&self) -> (r: u64)
        ensures
            r == self.gid,
    {
        self.gid
    }

    /// The stored name if one was set, otherwise the id in decimal.
    pub fn name(&self) -> (r: String)
        requires
            self.wf(),
        ensures
            self.graph.spec_has_vertex(self.gid) && self.graph.spec_vertex_name(self.gid)
                is Some ==> r@ == self.graph.spec_vertex_name(self.gid)->Some_0@,
            !(self.graph.spec_has_vertex(self.gid) && self.graph.spec_vertex_name(self.gid)
                is Some) ==> r@ == dec_digits(self.gid as nat),
    {
        let s = crate::shard_of(self.gid, self.graph.nr_shards);
        match self.graph.shards[s].find_vertex(self.gid) {
            Some(lid) => {
                match &self.graph.shards[s].vertices[lid].name {
                    Some(n) => n.clone(),
                    None => decimal_string(self.gid),
                }
            },
            None => decimal_string(self.gid),
        }
    }

    pub fn earliest_time(&self) -> (r: Option<i64>)
        requires
            self.wf(),
        ensures
            match r {
                Some(m) => self.graph.spec_has_vertex(self.gid) && m == seq_min(
                    self.graph.spec_vertex_times(self.gid),
                ),
                None => !self.graph.spec_has_vertex(self.gid),
            },
    {
        self.graph.earliest_time(self.gid)
    }

    pub fn latest_time(&self) -> (r: Option<i64>)
        requires
            self.wf(),
        ensures
            match r {
                Some(m) => self.graph.spec_has_vertex(self.gid) && m == seq_max(
                    self.graph.spec_vertex_times(self.gid),
                ),
                None => !self.graph.spec_has_vertex(self.gid),
            },
    {
        self.graph.latest_time(self.gid)
    }

    pub fn history(&self) -> (r: Vec<i64>)
        requires
            self.wf(),
        ensures
            self.graph.spec_has_vertex(self.gid) ==> r@ == filter_window(
                self.graph.spec_vertex_times(self.gid),
                self.window,
            ),
            !self.graph.spec_has_vertex(self.gid) ==> r@.len() == 0,
    {
        self.graph.history(self.gid, self.window)
    }

    /// The property value under `name` at time `ts`, if the vertex stores
    /// one at or before `ts`.
    pub fn property_at(&self, name: &String, ts: i64) -> (r: Option<Prop>)
        requires
            self.wf(),
            self.graph.spec_has_vertex(self.gid),
        ensures
            r == self.graph.shards@[self.graph.owner_of(self.gid)].spec_vertex(
                self.gid,
            ).props.spec_at(name@, ts),
    {
        let s = crate::shard_of(self.gid, self.graph.nr_shards);
        match self.graph.shards[s].find_vertex(self.gid) {
            Some(lid) => self.graph.shards[s].vertices[lid].props.at(name, ts),
            None => None,
        }
    }

    pub fn degree(&self) -> (r: usize)
        requires
            self.wf(),
        ensures
            r == self.graph.spec_neighbour_set(self.gid, Direction::Both, self.window).len(),
    {
        self.graph.degree(self.gid, Direction::Both, self.window)
    }

    pub fn in_degree(&self) -> (r: usize)
        requires
            self.wf(),
        ensures
            r == self.graph.spec_neighbour_set(self.gid, Direction::In, self.window).len(),
    {
        self.graph.degree(self.gid, Direction::In, self.window)
    }

    pub fn out_degree(&self) -> (r: usize)
        requires
            self.wf(),
        ensures
            r == self.graph.spec_neighbour_set(self.gid, Direction::Out, self.window).len(),
    {
        self.graph.degree(self.gid, Direction::Out, self.window)
    }

    pub fn neighbours(&self) -> (r: Vec<u64>)
        requires
            self.wf(),
        ensures
            r@.no_duplicates(),
            r@.to_set() == self.graph.spec_neighbour_set(self.gid, Direction::Both, self.window),
    {
        self.graph.neighbours(self.gid, Direction::Both, self.window)
    }

    pub fn in_neighbours(&self) -> (r: Vec<u64>)
        requires
            self.wf(),
        ensures
            r@.no_duplicates(),
            r@.to_set() == self.graph.spec_neighbour_set(self.gid, Direction::In, self.window),
    {
        self.graph.neighbours(self.gid, Direction::In, self.window)
    }

    pub fn out_neighbours(&self) -> (r: Vec<u64>)
        requires
            self.wf(),
        ensures
            r@.no_duplicates(),
            r@.to_set() == self.graph.spec_neighbour_set(self.gid, Direction::Out, self.window),
    {
        self.graph.neighbours(self.gid, Direction::Out, self.window)
    }

    /// The in-window edges leaving this vertex, one per neighbour.
    pub fn out_edges(&self) -> (r: Vec<(u64, u64)>)
        requires
            self.wf(),
        ensures
            r@.map_values(|p: (u64, u64)| p.1).to_set() == self.graph.spec_neighbour_set(
                self.gid,
                Direction::Out,
                self.window,
            ),
            forall|i: int| 0 <= i < r@.len() ==> (#[trigger] r@[i]).0 == self.gid,
            r@.no_duplicates(),
            r@.len() == self.graph.spec_neighbour_set(self.gid, Direction::Out, self.window).len(),
    {
        let ns = self.out_neighbours();
        let mut r: Vec<(u64, u64)> = Vec::new();
        let mut i: usize = 0;
        while i < ns.len()
            invariant
                i <= ns@.len(),
                r@.len() == i,
                forall|j: int| 0 <= j < i ==> (#[trigger] r@[j]) == (self.gid, ns@[j]),
            decreases ns@.len() - i,
        {
            r.push((self.gid, ns[i]));
            i += 1;
        }
        proof {
            assert(r@.map_values(|p: (u64, u64)| p.1) =~= ns@);
            assert forall|x: int, y: int| 0 <= x < y < r@.len() implies r@[x] != r@[y] by {
                assert(ns@[x] != ns@[y]);
            }
            ns@.unique_seq_to_set();
        }
        r
    }

    /// The in-window edges pointing into this vertex, one per neighbour.
    pub fn in_edges(&self) -> (r: Vec<(u64, u64)>)
        requires
            self.wf(),
        ensures
            r@.map_values(|p: (u64, u64)| p.0).to_set() == self.graph.spec_neighbour_set(
                self.gid,
                Direction::In,
                self.window,
            ),
            forall|i: int| 0 <= i < r@.len() ==> (#[trigger] r@[i]).1 == self.gid,
            r@.no_duplicates(),
            r@.len() == self.graph.spec_neighbour_set(self.gid, Direction::In, self.window).len(),
    {
        let ns = self.in_neighbours();
        let mut r: Vec<(u64, u64)> = Vec::new();
        let mut i: usize = 0;
        while i < ns.len()
            invariant
                i <= ns@.len(),
                r@.len() == i,
                forall|j: int| 0 <= j < i ==> (#[trigger] r@[j]) == (ns@[j], self.gid),
            decreases ns@.len() - i,
        {
            r.push((ns[i], self.gid));
            i += 1;
        }
        proof {
            assert(r@.map_values(|p: (u64, u64)| p.0) =~= ns@);
            assert forall|x: int, y: int| 0 <= x < y < r@.len() implies r@[x] != r@[y] by {
                assert(ns@[x] != ns@[y]);
            }
            ns@.unique_seq_to_set();
        }
        r
    }

    /// The in-window incident edges: the outgoing pairs, one per distinct
    /// out-neighbour, followed by the incoming pairs, one per distinct
    /// in-neighbour.
    pub fn edges(&self) -> (r: Vec<(u64, u64)>)
        requires
            self.wf(),
        ensures
            ({
                let out_n = self.graph.spec_neighbour_set(self.gid, Direction::Out, self.window);
                let in_n = self.graph.spec_neighbour_set(self.gid, Direction::In, self.window);
                &&& r@.len() == out_n.len() + in_n.len()
                &&& r@.take(out_n.len() as int).map_values(|p: (u64, u64)| p.1).to_set() == out_n
                &&& r@.take(out_n.len() as int).no_duplicates()
                &&& forall|i: int| 0 <= i < out_n.len() ==> (#[trigger] r@[i]).0 == self.gid
                &&& r@.skip(out_n.len() as int).map_values(|p: (u64, u64)| p.0).to_set() == in_n
                &&& r@.skip(out_n.len() as int).no_duplicates()
                &&& forall|i: int|
                    out_n.len() <= i < r@.len() ==> (#[trigger] r@[i]).1 == self.gid
            }),
    {
        let mut r = self.out_edges();
        let ghost outs = r@;
        let mut ins = self.in_edges();
        let ghost in_seq = ins@;
        let mut i: usize = 0;
        while i < ins.len()
            invariant
                i <= ins@.len(),
                ins@ == in_seq,
                r@ == outs + in_seq.take(i as int),
            decreases ins@.len() - i,
        {
            r.push(ins[i]);
            proof {
                assert(r@ =~= outs + in_seq.take(i + 1));
            }
            i += 1;
        }
        proof {
            assert(in_seq.take(in_seq.len() as int) =~= in_seq);
            assert(r@ == outs + in_seq);
            assert(r@.take(outs.len() as int) =~= outs);
            assert(r@.skip(outs.len() as int) =~= in_seq);
        }
        r
    }
}

impl<'a> VertexViewOps for VertexView<'a> {
    open spec fn valid(&self) -> bool {
        self.wf()
    }

    fn id(&self) -> u64 {
        VertexView::id(self)
    }

    fn name(&self) -> String {
        VertexView::name(self)
    }

    fn earliest_time(&self) -> Option<i64> {
        VertexView::earliest_time(self)
    }

    fn latest_time(&self) -> Option<i64> {
        VertexView::latest_time(self)
    }

    fn history(&self) -> Vec<i64> {
        VertexView::history(self)
    }

    fn degree(&self) -> usize {
        VertexView::degree(self)
    }

    fn in_degree(&self) -> usize {
        VertexView::in_degree(self)
    }

    fn out_degree(&self) -> usize {
        VertexView::out_degree(self)
    }

    fn edges(&self) -> Vec<(u64, u64)> {
        VertexView::edges(self)
    }

    fn in_edges(&self) -> Vec<(u64, u64)> {
        VertexView::in_edges(self)
    }

    fn out_edges(&self) -> Vec<(u64, u64)> {
        VertexView::out_edges(self)
    }

    fn neighbours(&self) -> Vec<u64> {
        VertexView::neighbours(self)
    }

    fn in_neighbours(&self) -> Vec<u64> {
        VertexView::in_neighbours(self)
    }

    fn out_neighbours(&self) -> Vec<u64> {
        VertexView::out_neighbours(self)
    }
}

/// Operations on a list of vertex views.
pub trait VertexListOps {
    /// Every view of the list is backed by a well-formed store.
    spec fn valid(&self) -> bool;

    /// The ids of the vertices, in list order.
    fn id(self) -> Vec<u64>
        requires
            self.valid(),
    ;

    /// The earliest event time of each vertex.
    fn earliest_time(self) -> Vec<Option<i64>>
        requires
            self.valid(),
    ;

    /// The latest event time of each vertex.
    fn latest_time(self) -> Vec<Option<i64>>
        requires
            self.valid(),
    ;

    /// The degree of each vertex.
    fn degree(self) -> Vec<usize>
        requires
            self.valid(),
    ;

    /// The in-degree of each vertex.
    fn in_degree(self) -> Vec<usize>
        requires
            self.valid(),
    ;

    /// The out-degree of each vertex.
    fn out_degree(self) -> Vec<usize>
        requires
            self.valid(),
    ;
}

impl<'a> VertexListOps for Vec<VertexView<'a>> {
    open spec fn valid(&self) -> bool {
        forall|i: int| 0 <= i < self@.len() ==> (#[trigger] self@[i]).wf()
    }

    fn id(self) -> (r: Vec<u64>)
        ensures
            r@.len() == self@.len(),
            forall|i: int| 0 <= i < r@.len() ==> r@[i] == self@[i].gid,
    {
        let mut r: Vec<u64> = Vec::new();
        let mut i: usize = 0;
        while i < self.len()
            invariant
                i <= self@.len(),
                self.valid(),
                r@.len() == i,
                forall|j: int| 0 <= j < i ==> r@[j] == self@[j].gid,
            decreases self@.len() - i,
        {
            r.push(self[i].gid);
            i += 1;
        }
        r
    }

    fn earliest_time(self) -> (r: Vec<Option<i64>>)
        ensures
            r@.len() == self@.len(),
            forall|i: int| 0 <= i < r@.len() ==> (#[trigger] r@[i]) == (if self@[i].graph.spec_has_vertex(self@[i].gid) {
                Some(seq_min(self@[i].graph.spec_vertex_times(self@[i].gid)))
            } else {
                None::<i64>
            }),
    {
        let mut r: Vec<Option<i64>> = Vec::new();
        let mut i: usize = 0;
        while i < self.len()
            invariant
                i <= self@.len(),
                self.valid(),
                r@.len() == i,
                forall|j: int| 0 <= j < i ==> (#[trigger] r@[j]) == (if self@[j].graph.spec_has_vertex(self@[j].gid) {
                Some(seq_min(self@[j].graph.spec_vertex_times(self@[j].gid)))
            } else {
                None::<i64>
            }),
            decreases self@.len() - i,
        {
            r.push(VertexView::earliest_time(&self[i]));
            i += 1;
        }
        r
    }

    fn latest_time(self) -> (r: Vec<Option<i64>>)
        ensures
            r@.len() == self@.len(),
            forall|i: int| 0 <= i < r@.len() ==> (#[trigger] r@[i]) == (if self@[i].graph.spec_has_vertex(self@[i].gid) {
                Some(seq_max(self@[i].graph.spec_vertex_times(self@[i].gid)))
            } else {
                None::<i64>
            }),
    {
        let mut r: Vec<Option<i64>> = Vec::new();
        let mut i: usize = 0;
        while i < self.len()
            invariant
                i <= self@.len(),
                self.valid(),
                r@.len() == i,
                forall|j: int| 0 <= j < i ==> (#[trigger] r@[j]) == (if self@[j].graph.spec_has_vertex(self@[j].gid) {
                Some(seq_max(self@[j].graph.spec_vertex_times(self@[j].gid)))
            } else {
                None::<i64>
            }),
            decreases self@.len() - i,
        {
            r.push(VertexView::latest_time(&self[i]));
            i += 1;
        }
        r
    }

    fn degree(self) -> (r: Vec<usize>)
        ensures
            r@.len() == self@.len(),
            forall|i: int| 0 <= i < r@.len() ==> (#[trigger] r@[i]) == self@[i].graph.spec_neighbour_set(self@[i].gid, Direction::Both, self@[i].window).len(),
    {
        let mut r: Vec<usize> = Vec::new();
        let mut i: usize = 0;
        while i < self.len()
            invariant
                i <= self@.len(),
                self.valid(),
                r@.len() == i,
                forall|j: int| 0 <= j < i ==> (#[trigger] r@[j]) == self@[j].graph.spec_neighbour_set(self@[j].gid, Direction::Both, self@[j].window).len(),
            decreases self@.len() - i,
        {
            r.push(VertexView::degree(&self[i]));
            i += 1;
        }
        r
    }

    fn in_degree(self) -> (r: Vec<usize>)
        ensures
            r@.len() == self@.len(),
            forall|i: int| 0 <= i < r@.len() ==> (#[trigger] r@[i]) == self@[i].graph.spec_neighbour_set(self@[i].gid, Direction::In, self@[i].window).len(),
    {
        let mut r: Vec<usize> = Vec::new();
        let mut i: usize = 0;
        while i < self.len()
            invariant
                i <= self@.len(),
                self.valid(),
                r@.len() == i,
                forall|j: int| 0 <= j < i ==> (#[trigger] r@[j]) == self@[j].graph.spec_neighbour_set(self@[j].gid, Direction::In, self@[j].window).len(),
            decreases self@.len() - i,
        {
            r.push(VertexView::in_degree(&self[i]));
            i += 1;
        }
        r
    }

    fn out_degree(self) -> (r: Vec<usize>)
        ensures
            r@.len() == self@.len(),
            forall|i: int| 0 <= i < r@.len() ==> (#[trigger] r@[i]) == self@[i].graph.spec_neighbour_set(self@[i].gid, Direction::Out, self@[i].window).len(),
    {
        let mut r: Vec<usize> = Vec::new();
        let mut i: usize = 0;
        while i < self.len()
            invariant
                i <= self@.len(),
                self.valid(),
                r@.len() == i,
                forall|j: int| 0 <= j < i ==> (#[trigger] r@[j]) == self@[j].graph.spec_neighbour_set(self@[j].gid, Direction::Out, self@[j].window).len(),
            decreases self@.len() - i,
        {
            r.push(VertexView::out_degree(&self[i]));
            i += 1;
        }
        r
    }
}

} // verus!
