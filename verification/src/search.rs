//! Depth-first enumeration of the routes that visit every point once.

use crate::graph::PatternGraph;
use vstd::prelude::*;

verus! {

/// The state that the search threads through its recursion.
pub struct Context {
    /// Number of routes found so far.
    pub index: u32,
    /// The routes found so far, in the order of their discovery.
    pub results: Vec<[u32; 10]>,
    /// The route under construction; position 0 is a placeholder.
    pub path: [u32; 10],
    /// Which vertices lie on the route under construction.
    pub visited: [bool; 10],
    /// The vertex to be placed next.
    pub last: u32,
    /// The position at which `last` is to be placed.
    pub depth: u32,
}

/// Positions `1..=n` of `q` hold a walk in `g` through distinct vertices
/// among `1..=9`. With `n == 0` nothing has been placed yet.
pub open spec fn is_trail(g: PatternGraph, q: Seq<u32>, n: int) -> bool {
    &&& 0 <= n <= 9
    &&& n < q.len()
    &&& forall|i: int| 1 <= i <= n ==> 1 <= #[trigger] q[i] <= 9
    &&& forall|i: int| 1 <= i < n ==> g.adjacent(#[trigger] q[i] as int, q[i + 1] as int)
    &&& forall|i: int, j: int| 1 <= i < j <= n ==> q[i] != q[j]
}

/// Vertex `v` stands at one of the positions `1..=n` of `q`.
pub open spec fn on_trail(q: Seq<u32>, n: int, v: int) -> bool {
    exists|i: int| 1 <= i <= n && #[trigger] q[i] == v
}

/// `r` is a full route that agrees with `q` on the positions `0..=d`. Where
/// only the starting slot is given (`d == 0`), the first vertex of the route
/// is joined to it.
pub open spec fn completes(g: PatternGraph, q: Seq<u32>, d: int, r: Seq<u32>) -> bool {
    &&& r.len() == 10
    &&& forall|i: int| 0 <= i <= d ==> #[trigger] r[i] == q[i]
    &&& is_trail(g, r, 9)
    &&& d == 0 ==> g.adjacent(r[0] as int, r[1] as int)
}

/// `r` is a route of `g`: the placeholder 0, then vertex 1, then the other
/// eight vertices in an order in which each is joined to the one before it.
pub open spec fn is_route(g: PatternGraph, r: Seq<u32>) -> bool {
    &&& r.len() == 10
    &&& r[0] == 0
    &&& r[1] == 1
    &&& is_trail(g, r, 9)
}

/// `a` and `b` agree before position `k`, where `a` holds the smaller vertex.
pub open spec fn differ_at(a: Seq<u32>, b: Seq<u32>, k: int) -> bool {
    &&& 0 <= k < a.len()
    &&& k < b.len()
    &&& forall|i: int| 0 <= i < k ==> a[i] == b[i]
    &&& a[k] < b[k]
}

/// `a` comes before `b` in lexicographic order.
pub open spec fn lex_lt(a: Seq<u32>, b: Seq<u32>) -> bool {
    exists|k: int| differ_at(a, b, k)
}

/// From index `from` on, `all` holds every completion of the first `d`
/// positions of `q`, each once, in lexicographic order.
pub open spec fn lists_completions(
    g: PatternGraph,
    q: Seq<u32>,
    d: int,
    all: Seq<[u32; 10]>,
    from: int,
) -> bool {
    &&& forall|j: int| from <= j < all.len() ==> completes(g, q, d, (#[trigger] all[j])@)
    &&& forall|r: Seq<u32>| #[trigger]
        completes(g, q, d, r) ==> exists|j: int| from <= j < all.len() && (#[trigger] all[j])@ == r
    &&& forall|i: int, j: int|
        from <= i < j < all.len() ==> lex_lt((#[trigger] all[i])@, (#[trigger] all[j])@)
}

/// `all` holds every route of `g`, each once, in lexicographic order.
pub open spec fn lists_routes(g: PatternGraph, all: Seq<[u32; 10]>) -> bool {
    &&& forall|j: int| 0 <= j < all.len() ==> is_route(g, (#[trigger] all[j])@)
    &&& forall|r: Seq<u32>| #[trigger]
        is_route(g, r) ==> exists|j: int| 0 <= j < all.len() && (#[trigger] all[j])@ == r
    &&& forall|i: int, j: int|
        0 <= i < j < all.len() ==> lex_lt((#[trigger] all[i])@, (#[trigger] all[j])@)
}

/// An upper bound on the number of routes below a partial route that still
/// has `levels` positions to fill: 9 to the power of `levels`, for up to
/// nine levels.
pub open spec fn budget(levels: nat) -> nat {
    if levels == 0 {
        1
    } else if levels == 1 {
        9
    } else if levels == 2 {
        81
    } else if levels == 3 {
        729
    } else if levels == 4 {
        6561
    } else if levels == 5 {
        59049
    } else if levels == 6 {
        531441
    } else if levels == 7 {
        4782969
    } else if levels == 8 {
        43046721
    } else {
        387420489
    }
}

impl Context {
    /// The route under construction with `last` put at its place.
    pub open spec fn trail(&self) -> Seq<u32> {
        self.path@.update(self.depth as int, self.last)
    }

    /// The state describes a partial route of `g` from which the search can
    /// go on. At depth 0 that is the starting slot alone, with no vertex
    /// marked.
    pub open spec fn ready(&self, g: PatternGraph) -> bool {
        &&& 0 <= self.depth <= 9
        &&& self.last < 10
        &&& is_trail(g, self.trail(), self.depth as int)
        &&& forall|v: int|
            1 <= v <= 9 ==> (self.visited@[v] <==> on_trail(self.trail(), self.depth as int, v))
        &&& self.index == self.results@.len()
        &&& self.results@.len() + budget((9 - self.depth) as nat) <= u32::MAX
    }
}

/// Extends the partial route of `ctx` in every possible way and appends the
/// full routes to `ctx.results`; returns their number. Entered at depth 0,
/// it lists the routes whose first vertex is joined to the slot in `last`.
pub fn dfs(graph: &PatternGraph, ctx: &mut Context) -> (count: u32)
    requires
        old(ctx).ready(*graph),
    ensures
        final(ctx).depth == old(ctx).depth,
        final(ctx).last == old(ctx).last,
        final(ctx).visited@ == old(ctx).visited@,
        final(ctx).index == final(ctx).results@.len(),
        forall|i: int| 0 <= i < old(ctx).depth ==> final(ctx).path@[i] == old(ctx).path@[i],
        final(ctx).path@[old(ctx).depth as int] == old(ctx).last,
        final(ctx).results@.len() == old(ctx).results@.len() + count,
        final(ctx).results@.take(old(ctx).results@.len() as int) == old(ctx).results@,
        count <= budget((9 - old(ctx).depth) as nat),
        lists_completions(
            *graph,
            old(ctx).trail(),
            old(ctx).depth as int,
            final(ctx).results@,
            old(ctx).results@.len() as int,
        ),
    decreases 9 - old(ctx).depth,
{
    let ghost q = ctx.trail();
    let ghost d = ctx.depth as int;
    let ghost n0 = ctx.results@.len() as int;
    let ghost found = ctx.results@;
    let ghost marks = ctx.visited@;
    ctx.path[ctx.depth as usize] = ctx.last;
    assert(ctx.path@ == q);
    if ctx.depth == 9 {
        ctx.index += 1;
        ctx.results.push(ctx.path);
        proof {
            assert(ctx.results@.take(n0) =~= found);
            assert(ctx.results@[n0]@ == q);
            assert forall|r: Seq<u32>| #[trigger] completes(*graph, q, d, r) implies exists|j: int|
                n0 <= j < ctx.results@.len() && (#[trigger] ctx.results@[j])@ == r by {
                assert(r =~= q);
            }
        }
        return 1;
    }
    let from = ctx.last;
    assert(from == q[d]);
    ctx.depth += 1;
    let mut count: u32 = 0;
    let nb = graph.neighbors(from);
    let mut k: usize = 0;
    while k < nb.len()
        invariant
            0 <= d <= 8,
            d == old(ctx).depth,
            q == old(ctx).trail(),
            n0 == old(ctx).results@.len(),
            found == old(ctx).results@,
            marks == old(ctx).visited@,
            from == q[d],
            old(ctx).ready(*graph),
            0 <= k <= nb@.len() <= 9,
            graph.is_neighbor_list(from as int, nb@),
            ctx.depth == d + 1,
            ctx.visited@ == old(ctx).visited@,
            forall|i: int| 0 <= i <= d ==> ctx.path@[i] == q[i],
            ctx.index == ctx.results@.len(),
            ctx.results@.len() == n0 + count,
            ctx.results@.take(n0) == found,
            count <= k * budget((8 - d) as nat),
            budget((9 - d) as nat) == 9 * budget((8 - d) as nat),
            n0 + budget((9 - d) as nat) <= u32::MAX,
            forall|j: int|
                n0 <= j < ctx.results@.len() ==> completes(
                    *graph,
                    q,
                    d,
                    (#[trigger] ctx.results@[j])@,
                ),
            forall|j: int, i: int|
                n0 <= j < ctx.results@.len() && k <= i < nb@.len() ==> (
                #[trigger] ctx.results@[j])@[d + 1] < #[trigger] nb@[i],
            forall|r: Seq<u32>, i: int|
                #[trigger] completes(*graph, q, d, r) && 0 <= i < k && #[trigger] nb@[i] == r[d
                    + 1] ==> exists|j: int|
                    n0 <= j < ctx.results@.len() && (#[trigger] ctx.results@[j])@ == r,
            forall|i: int, j: int|
                n0 <= i < j < ctx.results@.len() ==> lex_lt(
                    (#[trigger] ctx.results@[i])@,
                    (#[trigger] ctx.results@[j])@,
                ),
        decreases nb@.len() - k,
    {
        let v = nb[k];
        let ghost before = ctx.results@;
        let ghost n1 = before.len() as int;
        if !ctx.visited[v as usize] {
            ctx.visited[v as usize] = true;
            ctx.last = v;
            let ghost q1 = ctx.trail();
            proof {
                // The longer partial route is one from which the search can go on.
                let B = budget((8 - d) as nat);
                assert(count + B <= 9 * B) by (nonlinear_arith)
                    requires
                        count <= k * B,
                        k < 9,
                        B >= 0,
                ;
                assert forall|i: int| 0 <= i <= d implies q1[i] == q[i] by {}
                assert(q1[d + 1] == v);
                assert(!on_trail(q, d, v as int));
                assert forall|w: int| 1 <= w <= 9 implies (ctx.visited@[w] <==> on_trail(
                    q1,
                    d + 1,
                    w,
                )) by {
                    if on_trail(q, d, w) {
                        let i = choose|i: int| 1 <= i <= d && #[trigger] q[i] == w;
                        assert(q1[i] == w);
                    }
                    if w == v {
                        assert(q1[d + 1] == w);
                    }
                    if on_trail(q1, d + 1, w) && w != v {
                        let i = choose|i: int| 1 <= i <= d + 1 && #[trigger] q1[i] == w;
                        assert(q[i] == w);
                    }
                }
                assert(is_trail(*graph, q1, d + 1)) by {
                    assert forall|i: int, j: int| 1 <= i < j <= d + 1 implies q1[i] != q1[j] by {
                        if j == d + 1 {
                            assert(q[i] == q1[i]);
                        }
                    }
                }
            }
            let sub = dfs(graph, ctx);
            count += sub;
            ctx.visited[v as usize] = false;
            proof {
                // What was found earlier is untouched, and what was found
                // below `v` completes the shorter partial route too.
                let B = budget((8 - d) as nat);
                assert(count <= (k + 1) * B) by (nonlinear_arith)
                    requires
                        count - sub <= k * B,
                        sub <= B,
                ;
                assert(ctx.visited@ =~= marks);
                assert(ctx.results@.take(n0) =~= found) by {
                    assert(ctx.results@.take(n1).take(n0) =~= ctx.results@.take(n0));
                }
                assert forall|j: int| n0 <= j < n1 implies ctx.results@[j] == before[j] by {
                    assert(ctx.results@.take(n1)[j] == before[j]);
                }
                assert forall|j: int| n1 <= j < ctx.results@.len() implies completes(
                    *graph,
                    q,
                    d,
                    (#[trigger] ctx.results@[j])@,
                ) && ctx.results@[j]@[d + 1] == v by {
                    let r = ctx.results@[j]@;
                    assert(completes(*graph, q1, d + 1, r));
                    assert(r[d + 1] == q1[d + 1]);
                    assert forall|i: int| 0 <= i <= d implies #[trigger] r[i] == q[i] by {
                        assert(r[i] == q1[i]);
                    }
                    if d == 0 {
                        assert(r[0] == from && r[1] == v);
                        assert(graph.adjacent(from as int, nb@[k as int] as int));
                    }
                }
                assert forall|r: Seq<u32>, i: int|
                    #[trigger] completes(*graph, q, d, r) && 0 <= i < k + 1 && #[trigger] nb@[i]
                        == r[d + 1] implies exists|j: int|
                    n0 <= j < ctx.results@.len() && (#[trigger] ctx.results@[j])@ == r by {
                    if i < k {
                        let j = choose|j: int| n0 <= j < n1 && (#[trigger] before[j])@ == r;
                        assert(ctx.results@[j]@ == r);
                    } else {
                        assert forall|i: int| 0 <= i <= d + 1 implies #[trigger] r[i] == q1[i] by {
                            if i <= d {
                                assert(r[i] == q[i]);
                            }
                        }
                        assert(completes(*graph, q1, d + 1, r));
                    }
                }
                assert forall|i: int, j: int| n0 <= i < j < ctx.results@.len() implies lex_lt(
                    (#[trigger] ctx.results@[i])@,
                    (#[trigger] ctx.results@[j])@,
                ) by {
                    if j < n1 {
                        assert(lex_lt(before[i]@, before[j]@));
                    } else if i < n1 {
                        let a = ctx.results@[i]@;
                        let b = ctx.results@[j]@;
                        assert(completes(*graph, q, d, before[i]@));
                        assert(a[d + 1] < nb@[k as int]);
                        assert forall|t: int| 0 <= t < d + 1 implies a[t] == b[t] by {
                            assert(a[t] == q[t]);
                            assert(b[t] == q[t]);
                        }
                        assert(differ_at(a, b, d + 1));
                    }
                }
            }
        } else {
            proof {
                let B = budget((8 - d) as nat);
                assert(count <= (k + 1) * B) by (nonlinear_arith)
                    requires
                        count <= k * B,
                        B >= 0,
                ;
                // No route goes through `v` a second time.
                assert(on_trail(q, d, v as int));
                let t = choose|t: int| 1 <= t <= d && #[trigger] q[t] == v as int;
                assert forall|r: Seq<u32>, i: int|
                    #[trigger] completes(*graph, q, d, r) && 0 <= i < k + 1 && #[trigger] nb@[i]
                        == r[d + 1] implies exists|j: int|
                    n0 <= j < ctx.results@.len() && (#[trigger] ctx.results@[j])@ == r by {
                    if i == k {
                        assert(r[t] == q[t]);
                        assert(r[t] == r[d + 1]);
                    }
                }
            }
        }
        proof {
            assert forall|j: int| n0 <= j < ctx.results@.len() implies completes(
                *graph,
                q,
                d,
                (#[trigger] ctx.results@[j])@,
            ) by {
                if j < n1 {
                    assert(ctx.results@[j] == before[j]);
                    assert(completes(*graph, q, d, before[j]@));
                }
            }
            assert forall|j: int, i: int|
                n0 <= j < ctx.results@.len() && k + 1 <= i < nb@.len() implies (
            #[trigger] ctx.results@[j])@[d + 1] < #[trigger] nb@[i] by {
                assert(nb@[k as int] < nb@[i]);
                if j < n1 {
                    assert(ctx.results@[j] == before[j]);
                    assert(before[j]@[d + 1] < nb@[i]);
                } else {
                    assert(ctx.results@[j]@[d + 1] == v);
                }
            }
        }
        k += 1;
    }
    proof {
        // Every completion goes on through one of the neighbours tried.
        assert forall|i: int| 0 <= i < d implies ctx.path@[i] == old(ctx).path@[i] by {
            assert(ctx.path@[i] == q[i]);
        }
        assert forall|r: Seq<u32>| #[trigger] completes(*graph, q, d, r) implies exists|j: int|
            n0 <= j < ctx.results@.len() && (#[trigger] ctx.results@[j])@ == r by {
            assert(r[d] == q[d]);
            assert(1 <= r[d + 1] <= 9);
            if d > 0 {
                assert(1 <= r[d] <= 9);
            }
            assert(graph.adjacent(r[d] as int, r[d + 1] as int));
            assert(graph.adjacent(from as int, r[d + 1] as int));
            assert(nb@.contains(r[d + 1]));
            let i = choose|i: int| 0 <= i < nb@.len() && nb@[i] == r[d + 1];
            assert(0 <= i < k && nb@[i] == r[d + 1]);
        }
        assert(count <= 9 * budget((8 - d) as nat)) by (nonlinear_arith)
            requires
                count <= k * budget((8 - d) as nat),
                k <= 9,
        ;
    }
    ctx.depth -= 1;
    ctx.last = from;
    count
}

/// Finds every route of `graph` that starts at vertex 1. Returns their
/// number and the routes themselves, in lexicographic order.
pub fn search(graph: &PatternGraph) -> (out: (u32, Vec<[u32; 10]>))
    ensures
        out.0 == out.1@.len(),
        lists_routes(*graph, out.1@),
{
    let mut ctx = Context {
        index: 0,
        results: Vec::new(),
        path: [0; 10],
        visited: [false; 10],
        last: 1,
        depth: 1,
    };
    ctx.visited[1] = true;
    let ghost q = ctx.trail();
    proof {
        assert(q[1] == 1 && q[0] == 0);
        assert forall|v: int| 1 <= v <= 9 implies (ctx.visited@[v] <==> on_trail(q, 1, v)) by {
            if v == 1 {
                assert(q[1] == v);
            }
        }
    }
    let count = dfs(graph, &mut ctx);
    proof {
        let all = ctx.results@;
        assert forall|j: int| 0 <= j < all.len() implies is_route(*graph, (#[trigger] all[j])@) by {
            let r = all[j]@;
            assert(completes(*graph, q, 1, r));
            assert(r[0] == q[0] && r[1] == q[1]);
        }
        assert forall|r: Seq<u32>| #[trigger] is_route(*graph, r) implies exists|j: int|
            0 <= j < all.len() && (#[trigger] all[j])@ == r by {
            assert forall|i: int| 0 <= i <= 1 implies #[trigger] r[i] == q[i] by {}
            assert(completes(*graph, q, 1, r));
        }
    }
    (count, ctx.results)
}

} // verus!
