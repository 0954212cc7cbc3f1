use raphtory::accumulator::AccValue;
use raphtory::accumulators;
use raphtory::graph::GraphDB;
use raphtory::props::Prop;
use raphtory::runner::{DegreeStep, TaskRunner};
use raphtory::state::{ShardComputeState, ShuffleComputeState};

fn tiny_graph(n_shards: usize) -> GraphDB {
    let mut g = GraphDB::new(n_shards);
    let props: Vec<(String, Prop)> = vec![];
    g.add_vertex(1, 1, &props);
    g.add_vertex(2, 1, &props);
    g.add_vertex(3, 1, &props);
    g
}

fn pseudo_random(n: usize) -> Vec<i64> {
    let mut vals = Vec::new();
    let mut x: i64 = 11;
    for _ in 0..n {
        x = (x * 37 + 11) % 100;
        vals.push(x);
    }
    vals
}

#[test]
fn min_aggregates_for_3_keys() {
    let g = tiny_graph(1);

    let min = accumulators::min(0);

    let mut state_map = ShardComputeState::new(true);

    let mut vec = Vec::new();
    let mut actual_min = i64::MAX;
    for i in pseudo_random(100) {
        actual_min = actual_min.min(i);
        vec.push(i);
    }

    for a in vec {
        state_map.accumulate_into(0, 0, a, &min);
        state_map.accumulate_into(0, 1, a, &min);
        state_map.accumulate_into(0, 2, a, &min);
    }

    let actual = state_map.finalize(0, &min, 0, &g);
    assert_eq!(
        actual,
        Some(vec![
            (1, AccValue::Int(actual_min)),
            (2, AccValue::Int(actual_min)),
            (3, AccValue::Int(actual_min))
        ])
    );
}

#[test]
fn avg_aggregates_for_3_keys() {
    let g = tiny_graph(2);

    let avg = accumulators::avg(0);

    let mut state_map = ShardComputeState::new(false);

    let mut vec = Vec::new();
    let mut sum = 0;
    for i in pseudo_random(100) {
        sum += i;
        vec.push(i);
    }

    for a in vec {
        state_map.accumulate_into(0, 0, a, &avg);
        state_map.accumulate_into(0, 1, a, &avg);
        state_map.accumulate_into(0, 2, a, &avg);
    }

    let actual_avg = sum / 100;
    let actual = state_map.finalize(0, &avg, 0, &g);
    assert_eq!(
        actual,
        Some(vec![
            (0, AccValue::Int(actual_avg)),
            (1, AccValue::Int(actual_avg)),
            (2, AccValue::Int(actual_avg))
        ])
    );
}

#[test]
fn top3_aggregates_for_3_keys() {
    let g = tiny_graph(1);

    let top3 = accumulators::topk(0, 3);

    let mut state_map = ShardComputeState::new(true);

    for a in 0..100 {
        state_map.accumulate_into(0, 0, a, &top3);
        state_map.accumulate_into(0, 1, a, &top3);
        state_map.accumulate_into(0, 2, a, &top3);
    }
    let expected = vec![99, 98, 97];

    let actual = state_map.finalize(0, &top3, 0, &g);
    assert_eq!(
        actual,
        Some(vec![
            (1, AccValue::List(expected.clone())),
            (2, AccValue::List(expected.clone())),
            (3, AccValue::List(expected.clone()))
        ])
    );
}

#[test]
fn sum_aggregates_for_3_keys() {
    let g = tiny_graph(1);

    let sum = accumulators::sum(0);

    let mut state = ShardComputeState::new(false);

    let mut vec = Vec::new();
    let mut actual_sum = 0;
    for i in pseudo_random(100) {
        actual_sum += i;
        vec.push(i);
    }

    for a in vec {
        state.accumulate_into(0, 0, a, &sum);
        state.accumulate_into(0, 1, a, &sum);
        state.accumulate_into(0, 2, a, &sum);
    }

    let actual = state.finalize(0, &sum, 0, &g);

    assert_eq!(
        actual,
        Some(vec![
            (0, AccValue::Int(actual_sum)),
            (1, AccValue::Int(actual_sum)),
            (2, AccValue::Int(actual_sum))
        ])
    );
}

#[test]
fn sum_aggregates_for_3_keys_2_parts() {
    let g = tiny_graph(2);

    let sum = accumulators::sum(0);

    let mut part1_state = ShuffleComputeState::new(2);
    let mut part2_state = ShuffleComputeState::new(2);

    let mut vec1 = Vec::new();
    let mut vec2 = Vec::new();
    let mut actual_sum_1 = 0;
    let mut actual_sum_2 = 0;
    let data = pseudo_random(200);
    for k in 0..100 {
        // data for first partition
        let i = data[2 * k];
        actual_sum_1 += i;
        vec1.push(i);

        // data for second partition
        let i = data[2 * k + 1];
        actual_sum_2 += i;
        vec2.push(i);
    }

    // 1 gets all the numbers
    // 2 gets the numbers from part1
    // 3 gets the numbers from part2
    for a in vec1 {
        part1_state.accumulate_into(0, 1, a, &sum);
        part1_state.accumulate_into(0, 2, a, &sum);
    }

    for a in vec2 {
        part2_state.accumulate_into(0, 1, a, &sum);
        part2_state.accumulate_into(0, 3, a, &sum);
    }

    println!("part1_state: {:?}", part1_state.parts.len());
    println!("part2_state: {:?}", part2_state.parts.len());

    let actual = part1_state.finalize(0, &sum, &g);

    assert_eq!(
        actual,
        vec![
            Some(vec![(2, AccValue::Int(actual_sum_1))]),
            Some(vec![(1, AccValue::Int(actual_sum_1))])
        ]
    );

    let actual = part2_state.finalize(0, &sum, &g);

    assert_eq!(
        actual,
        vec![
            None,
            Some(vec![
                (1, AccValue::Int(actual_sum_2)),
                (3, AccValue::Int(actual_sum_2))
            ])
        ]
    );

    part1_state.merge_mut(&part2_state, &sum, 0);
    let actual = part1_state.finalize(0, &sum, &g);

    assert_eq!(
        actual,
        vec![
            Some(vec![(2, AccValue::Int(actual_sum_1))]),
            Some(vec![
                (1, AccValue::Int(actual_sum_1 + actual_sum_2)),
                (3, AccValue::Int(actual_sum_2))
            ]),
        ]
    );
}

#[test]
fn min_sum_aggregates_for_3_keys_2_parts() {
    let g = tiny_graph(2);

    let sum = accumulators::sum(0);
    let min = accumulators::min(1);

    let mut part1_state = ShuffleComputeState::new(2);
    let mut part2_state = ShuffleComputeState::new(2);

    let mut vec1 = Vec::new();
    let mut vec2 = Vec::new();
    let mut actual_sum_1 = 0;
    let mut actual_sum_2 = 0;
    let mut actual_min_1 = 100;
    let mut actual_min_2 = 100;
    let data = pseudo_random(200);
    for k in 0..100 {
        // data for first partition
        let i = data[2 * k];
        actual_sum_1 += i;
        actual_min_1 = actual_min_1.min(i);
        vec1.push(i);

        // data for second partition
        let i = data[2 * k + 1];
        actual_sum_2 += i;
        actual_min_2 = actual_min_2.min(i);
        vec2.push(i);
    }

    // 1 gets all the numbers
    // 2 gets the numbers from part1
    // 3 gets the numbers from part2
    for a in vec1 {
        part1_state.accumulate_into(0, 1, a, &sum);
        part1_state.accumulate_into(0, 2, a, &sum);
        part1_state.accumulate_into(0, 1, a, &min);
        part1_state.accumulate_into(0, 2, a, &min);
    }

    for a in vec2 {
        part2_state.accumulate_into(0, 1, a, &sum);
        part2_state.accumulate_into(0, 3, a, &sum);
        part2_state.accumulate_into(0, 1, a, &min);
        part2_state.accumulate_into(0, 3, a, &min);
    }

    let actual = part1_state.finalize(0, &sum, &g);
    assert_eq!(
        actual,
        vec![
            Some(vec![(2, AccValue::Int(actual_sum_1))]),
            Some(vec![(1, AccValue::Int(actual_sum_1))])
        ]
    );

    let actual = part1_state.finalize(0, &min, &g);
    assert_eq!(
        actual,
        vec![
            Some(vec![(2, AccValue::Int(actual_min_1))]),
            Some(vec![(1, AccValue::Int(actual_min_1))])
        ]
    );

    let actual = part2_state.finalize(0, &sum, &g);
    assert_eq!(
        actual,
        vec![
            None,
            Some(vec![
                (1, AccValue::Int(actual_sum_2)),
                (3, AccValue::Int(actual_sum_2))
            ])
        ]
    );

    let actual = part2_state.finalize(0, &min, &g);
    assert_eq!(
        actual,
        vec![
            None,
            Some(vec![
                (1, AccValue::Int(actual_min_2)),
                (3, AccValue::Int(actual_min_2))
            ])
        ]
    );

    part1_state.merge_mut(&part2_state, &sum, 0);
    let actual = part1_state.finalize(0, &sum, &g);

    assert_eq!(
        actual,
        vec![
            Some(vec![(2, AccValue::Int(actual_sum_1))]),
            Some(vec![
                (1, AccValue::Int(actual_sum_1 + actual_sum_2)),
                (3, AccValue::Int(actual_sum_2))
            ]),
        ]
    );

    part1_state.merge_mut(&part2_state, &min, 0);
    let actual = part1_state.finalize(0, &min, &g);
    assert_eq!(
        actual,
        vec![
            Some(vec![(2, AccValue::Int(actual_min_1))]),
            Some(vec![
                (1, AccValue::Int(actual_min_1.min(actual_min_2))),
                (3, AccValue::Int(actual_min_2))
            ]),
        ]
    );
}

#[test]
fn top3_fed_range_over_three_keys() {
    // feeding 0..99 into three keys leaves the three largest for each key
    let g = tiny_graph(1);
    let top3 = accumulators::topk(7, 3);
    let mut state = ShardComputeState::new(false);
    for a in 0..100 {
        state.accumulate_into(0, 10, a, &top3);
        state.accumulate_into(0, 20, a, &top3);
        state.accumulate_into(0, 30, a, &top3);
    }
    let actual = state.finalize(0, &top3, 0, &g);
    let expected = vec![99, 98, 97];
    assert_eq!(
        actual,
        Some(vec![
            (10, AccValue::List(expected.clone())),
            (20, AccValue::List(expected.clone())),
            (30, AccValue::List(expected.clone()))
        ])
    );
}

#[test]
fn max_any_all_accumulators() {
    let g = tiny_graph(1);
    let max = accumulators::max(0);
    let any = accumulators::any(1);
    let all = accumulators::all(2);
    let mut state = ShardComputeState::new(false);
    for a in [3i64, 0, 7, 5] {
        state.accumulate_into(0, 1, a, &max);
        state.accumulate_into(0, 1, a, &any);
        state.accumulate_into(0, 1, a, &all);
    }
    assert_eq!(
        state.finalize(0, &max, 0, &g),
        Some(vec![(1, AccValue::Int(7))])
    );
    assert_eq!(
        state.finalize(0, &any, 0, &g),
        Some(vec![(1, AccValue::Flag(true))])
    );
    assert_eq!(
        state.finalize(0, &all, 0, &g),
        Some(vec![(1, AccValue::Flag(false))])
    );
    assert_eq!(state.finalize(0, &accumulators::sum(9), 0, &g), None);
}

#[test]
fn combine_is_commutative_for_sum_and_min() {
    // merging two worker states in either order gives the same totals
    let sum = accumulators::sum(0);
    let g = tiny_graph(2);
    let mut a = ShuffleComputeState::new(2);
    let mut b = ShuffleComputeState::new(2);
    a.accumulate_into(0, 4, 10, &sum);
    b.accumulate_into(0, 4, 32, &sum);
    let mut ab = ShuffleComputeState::new(2);
    ab.merge_mut(&a, &sum, 0);
    ab.merge_mut(&b, &sum, 0);
    let mut ba = ShuffleComputeState::new(2);
    ba.merge_mut(&b, &sum, 0);
    ba.merge_mut(&a, &sum, 0);
    assert_eq!(ab.finalize(0, &sum, &g), ba.finalize(0, &sum, &g));
    assert_eq!(
        ab.finalize(0, &sum, &g),
        vec![Some(vec![(4, AccValue::Int(42))]), None]
    );
}

#[test]
fn runner_degree_step_counts_neighbours() {
    let props: Vec<(String, Prop)> = vec![];
    let mut g = GraphDB::new(2);
    g.add_edge(1, 2, 0, &props);
    g.add_edge(1, 3, 0, &props);
    g.add_edge(2, 3, 1, &props);

    let deg = accumulators::max(0);
    let mut state = ShuffleComputeState::new(2);
    let runner = TaskRunner::new(1);
    let steps = vec![DegreeStep { acc: deg }];
    let ran = runner.run(&g, None, &steps, &mut state);
    assert_eq!(ran, 1);

    let out = state.finalize(0, &deg, &g);
    // every vertex has degree 2 in the triangle
    assert_eq!(
        out,
        vec![
            Some(vec![(2, AccValue::Int(2))]),
            Some(vec![(1, AccValue::Int(2)), (3, AccValue::Int(2))])
        ]
    );
}
