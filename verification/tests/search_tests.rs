use enum_pattern_9::graph::PatternGraph;
use enum_pattern_9::search::{dfs, search, Context};

fn permutations_from_one(g: &PatternGraph) -> Vec<[u32; 10]> {
    let mut out = Vec::new();
    let mut stack: Vec<Vec<u32>> = vec![vec![0, 1]];
    while let Some(p) = stack.pop() {
        if p.len() == 10 {
            let mut a = [0u32; 10];
            a.copy_from_slice(&p);
            out.push(a);
            continue;
        }
        for v in 1..10u32 {
            if !p[1..].contains(&v) && g.get(p[p.len() - 1], v) {
                let mut q = p.clone();
                q.push(v);
                stack.push(q);
            }
        }
    }
    out.sort();
    out
}

#[test]
fn grid_search_finds_5040_routes() {
    let g = PatternGraph::grid();
    let (count, results) = search(&g);
    assert_eq!(count, 5040);
    assert_eq!(results.len(), 5040);
}

#[test]
fn grid_search_first_and_last_routes() {
    let g = PatternGraph::grid();
    let (_, results) = search(&g);
    assert_eq!(results[0], [0, 1, 2, 3, 4, 5, 6, 7, 8, 9]);
    assert_eq!(results[1], [0, 1, 2, 3, 4, 5, 6, 9, 8, 7]);
    assert_eq!(results[2], [0, 1, 2, 3, 4, 5, 7, 6, 8, 9]);
    assert_eq!(results[5037], [0, 1, 8, 9, 6, 7, 5, 3, 4, 2]);
    assert_eq!(results[5038], [0, 1, 8, 9, 6, 7, 5, 4, 2, 3]);
    assert_eq!(results[5039], [0, 1, 8, 9, 6, 7, 5, 4, 3, 2]);
}

#[test]
fn every_route_is_a_permutation_from_one() {
    let g = PatternGraph::grid();
    let (_, results) = search(&g);
    for r in &results {
        assert_eq!(r[0], 0);
        assert_eq!(r[1], 1);
        let mut seen = [false; 10];
        for i in 1..10 {
            assert!(1 <= r[i] && r[i] <= 9);
            assert!(!seen[r[i] as usize]);
            seen[r[i] as usize] = true;
        }
        assert!(seen[1..].iter().all(|&b| b));
    }
}

#[test]
fn every_step_of_a_route_is_an_edge() {
    let g = PatternGraph::grid();
    let (_, results) = search(&g);
    for r in &results {
        for i in 1..9 {
            assert!(g.get(r[i], r[i + 1]));
        }
    }
}

#[test]
fn routes_come_in_strict_lexicographic_order() {
    let g = PatternGraph::grid();
    let (_, results) = search(&g);
    for i in 1..results.len() {
        assert!(results[i - 1] < results[i]);
    }
}

#[test]
fn search_twice_gives_the_same_listing() {
    let g = PatternGraph::grid();
    let (c1, r1) = search(&g);
    let (c2, r2) = search(&g);
    assert_eq!(c1, c2);
    assert_eq!(r1, r2);
}

#[test]
fn search_finds_exactly_the_routes_of_the_grid() {
    let g = PatternGraph::grid();
    let (_, results) = search(&g);
    assert_eq!(results, permutations_from_one(&g));
}

#[test]
fn search_does_not_need_the_placeholder_edge() {
    let mut g = PatternGraph::new();
    for v in 1..9u32 {
        g.set(v, v + 1);
    }
    let (count, results) = search(&g);
    assert_eq!(count, 1);
    assert_eq!(results, vec![[0, 1, 2, 3, 4, 5, 6, 7, 8, 9]]);
}

#[test]
fn search_of_an_empty_graph_finds_nothing() {
    let g = PatternGraph::new();
    let (count, results) = search(&g);
    assert_eq!(count, 0);
    assert!(results.is_empty());
}

#[test]
fn search_of_a_ring_finds_both_directions() {
    let mut g = PatternGraph::new();
    for v in 1..9u32 {
        g.set(v, v + 1);
    }
    g.set(9, 1);
    let (count, results) = search(&g);
    assert_eq!(count, 2);
    assert_eq!(
        results,
        vec![[0, 1, 2, 3, 4, 5, 6, 7, 8, 9], [0, 1, 9, 8, 7, 6, 5, 4, 3, 2]]
    );
}

#[test]
fn search_ignores_self_loops() {
    let mut g = PatternGraph::new();
    for v in 1..9u32 {
        g.set(v, v + 1);
        g.set(v, v);
    }
    let (count, _) = search(&g);
    assert_eq!(count, 1);
}

#[test]
fn dfs_from_a_partial_route() {
    let g = PatternGraph::grid();
    let mut ctx = Context {
        index: 0,
        results: Vec::new(),
        path: [0, 1, 2, 0, 0, 0, 0, 0, 0, 0],
        visited: [false, true, true, true, false, false, false, false, false, false],
        last: 3,
        depth: 3,
    };
    let count = dfs(&g, &mut ctx);
    assert_eq!(count, 216);
    assert_eq!(ctx.index, 216);
    assert_eq!(ctx.results.len(), 216);
    assert_eq!(ctx.results[0], [0, 1, 2, 3, 4, 5, 6, 7, 8, 9]);
    assert_eq!(ctx.results[215], [0, 1, 2, 3, 8, 9, 6, 7, 5, 4]);
    assert_eq!(ctx.depth, 3);
    assert_eq!(ctx.last, 3);
    assert_eq!(
        ctx.visited,
        [false, true, true, true, false, false, false, false, false, false]
    );
    assert_eq!(ctx.path[..4], [0, 1, 2, 3]);
}

#[test]
fn dfs_at_full_depth_records_the_route() {
    let g = PatternGraph::grid();
    let earlier = [0, 1, 2, 3, 4, 5, 6, 7, 8, 9];
    let mut ctx = Context {
        index: 1,
        results: vec![earlier],
        path: [0, 1, 2, 3, 4, 5, 6, 9, 8, 0],
        visited: [false, true, true, true, true, true, true, true, true, true],
        last: 7,
        depth: 9,
    };
    let count = dfs(&g, &mut ctx);
    assert_eq!(count, 1);
    assert_eq!(ctx.index, 2);
    assert_eq!(ctx.results, vec![earlier, [0, 1, 2, 3, 4, 5, 6, 9, 8, 7]]);
    assert_eq!(ctx.depth, 9);
    assert_eq!(ctx.last, 7);
}

#[test]
fn dfs_at_a_dead_end_finds_nothing() {
    let mut g = PatternGraph::new();
    g.set(1, 2);
    let mut ctx = Context {
        index: 0,
        results: Vec::new(),
        path: [0, 1, 0, 0, 0, 0, 0, 0, 0, 0],
        visited: [false, true, true, false, false, false, false, false, false, false],
        last: 2,
        depth: 2,
    };
    let count = dfs(&g, &mut ctx);
    assert_eq!(count, 0);
    assert!(ctx.results.is_empty());
    assert_eq!(ctx.depth, 2);
}

fn start_state() -> Context {
    Context {
        index: 0,
        results: Vec::new(),
        path: [0; 10],
        visited: [false; 10],
        last: 0,
        depth: 0,
    }
}

#[test]
fn dfs_from_the_start_state_finds_5040_routes() {
    let g = PatternGraph::grid();
    let mut ctx = start_state();
    let count = dfs(&g, &mut ctx);
    assert_eq!(count, 5040);
    assert_eq!(ctx.index, 5040);
    assert_eq!(ctx.results.len(), 5040);
    assert_eq!(ctx.results[0], [0, 1, 2, 3, 4, 5, 6, 7, 8, 9]);
    assert_eq!(ctx.results[1], [0, 1, 2, 3, 4, 5, 6, 9, 8, 7]);
    assert_eq!(ctx.results[5038], [0, 1, 8, 9, 6, 7, 5, 4, 2, 3]);
    assert_eq!(ctx.results[5039], [0, 1, 8, 9, 6, 7, 5, 4, 3, 2]);
}

#[test]
fn dfs_from_the_start_state_restores_the_state() {
    let g = PatternGraph::grid();
    let mut ctx = start_state();
    dfs(&g, &mut ctx);
    assert_eq!(ctx.depth, 0);
    assert_eq!(ctx.last, 0);
    assert_eq!(ctx.visited, [false; 10]);
    assert_eq!(ctx.path[0], 0);
}

#[test]
fn dfs_from_the_start_state_records_routes_only() {
    let g = PatternGraph::grid();
    let mut ctx = start_state();
    dfs(&g, &mut ctx);
    for r in &ctx.results {
        assert_eq!(r[0], 0);
        assert_eq!(r[1], 1);
        for k in 1..10u32 {
            assert_eq!(r[1..].iter().filter(|&&v| v == k).count(), 1);
        }
        for i in 1..9 {
            assert!(g.get(r[i], r[i + 1]));
        }
    }
    for i in 1..ctx.results.len() {
        assert!(ctx.results[i - 1] < ctx.results[i]);
    }
    assert_eq!(ctx.results, permutations_from_one(&g));
}

#[test]
fn dfs_from_the_start_state_agrees_with_search() {
    let g = PatternGraph::grid();
    let mut ctx = start_state();
    let count = dfs(&g, &mut ctx);
    let (total, results) = search(&g);
    assert_eq!(count, total);
    assert_eq!(ctx.results, results);
}

#[test]
fn dfs_from_the_start_state_twice_gives_the_same_listing() {
    let g = PatternGraph::grid();
    let mut first = start_state();
    let mut second = start_state();
    let n1 = dfs(&g, &mut first);
    let n2 = dfs(&g, &mut second);
    assert_eq!(n1, n2);
    assert_eq!(first.results, second.results);
}

#[test]
fn dfs_at_depth_zero_starts_at_each_neighbour_of_the_slot() {
    let mut g = PatternGraph::new();
    for v in 1..9u32 {
        g.set(v, v + 1);
    }
    g.set(0, 1);
    g.set(0, 9);
    let mut ctx = start_state();
    let count = dfs(&g, &mut ctx);
    assert_eq!(count, 2);
    assert_eq!(
        ctx.results,
        vec![[0, 1, 2, 3, 4, 5, 6, 7, 8, 9], [0, 9, 8, 7, 6, 5, 4, 3, 2, 1]]
    );
}

#[test]
fn dfs_at_depth_zero_without_an_edge_from_the_slot_finds_nothing() {
    let mut g = PatternGraph::new();
    for v in 1..9u32 {
        g.set(v, v + 1);
    }
    let mut ctx = start_state();
    assert_eq!(dfs(&g, &mut ctx), 0);
    assert!(ctx.results.is_empty());
}

#[test]
fn dfs_at_depth_zero_does_not_mark_the_slot() {
    let mut g = PatternGraph::new();
    for v in 1..9u32 {
        g.set(v, v + 1);
    }
    g.set(9, 1);
    let mut ctx = start_state();
    ctx.last = 1;
    let count = dfs(&g, &mut ctx);
    assert_eq!(count, 4);
    assert_eq!(
        ctx.results,
        vec![
            [1, 2, 1, 9, 8, 7, 6, 5, 4, 3],
            [1, 2, 3, 4, 5, 6, 7, 8, 9, 1],
            [1, 9, 1, 2, 3, 4, 5, 6, 7, 8],
            [1, 9, 8, 7, 6, 5, 4, 3, 2, 1],
        ]
    );
}
