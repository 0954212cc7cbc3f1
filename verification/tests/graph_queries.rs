use raphtory::algorithms::{degree_centrality, directed_graph_density, max_degree};
use raphtory::graph::GraphDB;
use raphtory::props::Prop;
use raphtory::shard::Direction;
use raphtory::view::VertexViewOps;
use std::collections::HashMap;

fn no_props() -> Vec<(String, Prop)> {
    vec![]
}

#[test]
fn test_degree_centrality() {
    let props = no_props();
    let mut graph = GraphDB::new(2);
    let vs = vec![(0, 1), (0, 2), (0, 3), (1, 2), (1, 3)];
    for (src, dst) in &vs {
        graph.add_edge(*src, *dst, 0, &props);
    }
    let mut hash_map_result: HashMap<String, f64> = HashMap::new();
    hash_map_result.insert("0".to_string(), 1.0);
    hash_map_result.insert("1".to_string(), 1.0);
    hash_map_result.insert("2".to_string(), 2.0 / 3.0);
    hash_map_result.insert("3".to_string(), 2.0 / 3.0);

    let res = degree_centrality(&graph, None);
    let mut as_floats: HashMap<String, f64> = HashMap::new();
    for (gid, score) in res.get_all() {
        as_floats.insert(format!("{}", gid), score.num as f64 / score.den as f64);
    }
    assert_eq!(as_floats, hash_map_result);
}

#[test]
fn low_graph_density() {
    let props = no_props();
    let mut g = GraphDB::new(2);
    let vs = vec![
        (1, 1, 2),
        (2, 1, 3),
        (3, 2, 1),
        (4, 3, 2),
        (5, 1, 4),
        (6, 4, 5),
    ];

    for (t, src, dst) in &vs {
        g.add_edge(*src, *dst, *t, &props);
    }

    let windowed_graph = g.window(0, 7);
    let r = directed_graph_density(&windowed_graph);
    let actual = r.num as f32 / r.den as f32;
    let expected = 0.3;

    assert_eq!(actual, expected);
}

#[test]
fn complete_graph_has_graph_density_of_one() {
    let props = no_props();
    let mut g = GraphDB::new(2);
    let vs = vec![(1, 1, 2), (2, 2, 1)];

    for (t, src, dst) in &vs {
        g.add_edge(*src, *dst, *t, &props);
    }

    let windowed_graph = g.window(0, 3);
    let r = directed_graph_density(&windowed_graph);
    let actual = r.num as f32 / r.den as f32;
    let expected = 1.0;

    assert_eq!(actual, expected);
}

#[test]
fn two_shards_route_and_count_distinct_vertices() {
    // three vertices over two shards: the length counts each id once
    let props = no_props();
    let mut g = GraphDB::new(2);
    g.add_vertex(1, 1, &props);
    g.add_vertex(2, 1, &props);
    g.add_vertex(3, 1, &props);
    assert_eq!(g.len(), 3);
    assert_eq!(g.shard_from_global_vid(1), 1);
    assert_eq!(g.shard_from_global_vid(2), 0);
    assert_eq!(g.shard_from_global_vid(3), 1);
}

#[test]
fn add_vertex_len_counts_distinct_ids() {
    let props = no_props();
    let mut g = GraphDB::new(2);
    let vs: Vec<(u64, i64)> = vec![(5, 1), (7, 2), (5, 3), (9, 1), (7, 9), (5, 5)];
    for (v, t) in &vs {
        g.add_vertex(*v, *t, &props);
    }
    assert_eq!(g.len(), 3);
    assert!(g.has_vertex(5) && g.has_vertex(7) && g.has_vertex(9));
    assert!(!g.has_vertex(6));
}

#[test]
fn cross_shard_edge_counted_once() {
    // 1 and 2 land in different shards of a two-shard store
    let props = no_props();
    let mut g = GraphDB::new(2);
    g.add_edge(1, 2, 3, &props);
    assert_eq!(g.count_edges(None), 1);
    assert_eq!(g.len(), 2);
    // both halves answer traversals from either endpoint's shard
    assert_eq!(g.degree(1, Direction::Out, None), 1);
    assert_eq!(g.degree(2, Direction::In, None), 1);
    // a second occurrence of the same edge adds no new logical edge
    g.add_edge(1, 2, 9, &props);
    assert_eq!(g.count_edges(None), 1);
}

#[test]
fn windowed_count_edges_sees_events_in_window() {
    let props = no_props();
    let mut g = GraphDB::new(2);
    g.add_edge(1, 2, 1, &props);
    g.add_edge(2, 3, 5, &props);
    g.add_edge(3, 4, 9, &props);
    assert_eq!(g.count_edges(Some((0, 10))), 3);
    assert_eq!(g.count_edges(Some((0, 6))), 2);
    assert_eq!(g.count_edges(Some((2, 6))), 1);
    assert_eq!(g.count_edges(Some((6, 6))), 0);
    // the window composes by intersection
    let w = g.window(0, 10).window(2, 6);
    assert_eq!(w.count_edges(), 1);
}

#[test]
fn earliest_never_after_latest() {
    let props = no_props();
    let mut g = GraphDB::new(3);
    g.add_vertex(4, 7, &props);
    g.add_vertex(4, -2, &props);
    g.add_vertex(4, 3, &props);
    let e = g.earliest_time(4).unwrap();
    let l = g.latest_time(4).unwrap();
    assert_eq!(e, -2);
    assert_eq!(l, 7);
    assert!(e <= l);
    assert_eq!(g.earliest_time(99), None);
}

#[test]
fn windowed_degree_is_monotonic_in_the_window() {
    let props = no_props();
    let mut g = GraphDB::new(2);
    g.add_edge(1, 2, 1, &props);
    g.add_edge(1, 3, 5, &props);
    g.add_edge(1, 4, 9, &props);
    let narrow = g.degree(1, Direction::Both, Some((4, 6)));
    let wide = g.degree(1, Direction::Both, Some((0, 10)));
    assert_eq!(narrow, 1);
    assert_eq!(wide, 3);
    assert!(narrow <= wide);
}

#[test]
fn vertex_view_reports_history_and_neighbours() {
    let props = no_props();
    let mut g = GraphDB::new(2);
    g.add_edge(1, 2, 2, &props);
    g.add_edge(3, 1, 4, &props);
    g.add_vertex(1, 6, &props);
    let w = g.window(0, 10);
    let v = w.vertex(1).unwrap();
    assert_eq!(v.id(), 1);
    assert_eq!(v.name(), "1".to_string());
    assert_eq!(v.history(), vec![2, 4, 6]);
    assert_eq!(v.degree(), 2);
    assert_eq!(v.in_degree(), 1);
    assert_eq!(v.out_degree(), 1);
    let mut ns = v.neighbours();
    ns.sort();
    assert_eq!(ns, vec![2, 3]);
    assert_eq!(v.out_edges(), vec![(1, 2)]);
    assert_eq!(v.in_edges(), vec![(3, 1)]);
    assert!(w.vertex(9).is_none());
    assert_eq!(max_degree(&g), 2);
}

#[test]
fn property_store_keeps_latest_write_per_timestamp() {
    let mut g = GraphDB::new(1);
    let name = "weight".to_string();
    let first_write = vec![(name.clone(), Prop::I64(10))];
    let second_write = vec![(name.clone(), Prop::I64(20))];
    let third_write = vec![(name.clone(), Prop::Str("last".to_string()))];
    let mut g2 = GraphDB::new(1);
    g2.add_vertex(1, 1, &first_write);
    g2.add_vertex(1, 5, &second_write);
    g2.add_vertex(1, 5, &third_write);
    g.add_vertex(1, 1, &first_write);
    let w = g2.at(9);
    let v = w.vertex(1).unwrap();
    assert_eq!(v.property_at(&name, 0), None);
    assert_eq!(v.property_at(&name, 1), Some(Prop::I64(10)));
    assert_eq!(v.property_at(&name, 4), Some(Prop::I64(10)));
    // at a repeated timestamp the last writer wins
    assert_eq!(
        v.property_at(&name, 7),
        Some(Prop::Str("last".to_string()))
    );
}
