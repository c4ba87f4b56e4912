//! The adjacency relation between the points of the grid.

use vstd::prelude::*;

verus! {

/// An undirected graph over the vertex slots `0..=9`, held as an adjacency
/// matrix.
pub struct PatternGraph {
    matrix: [[bool; 10]; 10],
}

impl View for PatternGraph {
    type V = Set<(int, int)>;

    /// The ordered pairs of vertices that are joined by an edge.
    closed spec fn view(&self) -> Set<(int, int)> {
        Set::new(
            |p: (int, int)| 0 <= p.0 < 10 && 0 <= p.1 < 10 && self.matrix[p.0][p.1],
        )
    }
}

impl PatternGraph {
    /// Whether `u` and `v` are joined by an edge.
    pub open spec fn adjacent(&self, u: int, v: int) -> bool {
        self@.contains((u, v))
    }

    /// Every edge runs both ways.
    pub open spec fn symmetric(&self) -> bool {
        forall|u: int, v: int| self.adjacent(u, v) ==> self.adjacent(v, u)
    }

    /// No vertex is joined to itself.
    pub open spec fn loop_free(&self) -> bool {
        forall|u: int| !self.adjacent(u, u)
    }

    /// `out` lists, in increasing order, the vertices among `1..=9` that are
    /// joined to `u`.
    pub open spec fn is_neighbor_list(&self, u: int, out: Seq<u32>) -> bool {
        &&& forall|k: int| 0 <= k < out.len() ==> 1 <= #[trigger] out[k] <= 9
        &&& forall|k: int| 0 <= k < out.len() ==> self.adjacent(u, #[trigger] out[k] as int)
        &&& forall|i: int, j: int| 0 <= i < j < out.len() ==> out[i] < out[j]
        &&& forall|v: u32| 1 <= v <= 9 && self.adjacent(u, v as int) ==> out.contains(v)
    }

    /// The graph without edges.
    pub fn new() -> (g: Self)
        ensures
            g@ == Set::<(int, int)>::empty(),
            g.symmetric(),
            g.loop_free(),
    {
        let g = PatternGraph { matrix: [[false; 10]; 10] };
        assert(g@ =~= Set::<(int, int)>::empty());
        g
    }

    /// Joins `u` and `v` by an edge, in both directions.
    pub fn set(&mut self, u: u32, v: u32)
        requires
            u < 10,
            v < 10,
        ensures
            final(self)@ == old(self)@.insert((u as int, v as int)).insert((v as int, u as int)),
            old(self).symmetric() ==> final(self).symmetric(),
            old(self).loop_free() && u != v ==> final(self).loop_free(),
    {
        self.matrix[u as usize][v as usize] = true;
        self.matrix[v as usize][u as usize] = true;
        assert(self@ =~= old(self)@.insert((u as int, v as int)).insert((v as int, u as int)));
        assert(old(self).loop_free() && u != v ==> self.loop_free()) by {
            if old(self).loop_free() && u != v {
                assert forall|a: int| !self.adjacent(a, a) by {
                    assert(!old(self).adjacent(a, a));
                }
            }
        }
        assert(old(self).symmetric() ==> self.symmetric()) by {
            if old(self).symmetric() {
                assert forall|a: int, b: int| self.adjacent(a, b) implies self.adjacent(b, a) by {
                    if old(self).adjacent(a, b) {
                        assert(old(self).adjacent(b, a));
                    }
                }
            }
        }
    }

    /// Whether `u` and `v` are joined by an edge.
    pub fn get(&self, u: u32, v: u32) -> (b: bool)
        requires
            u < 10,
            v < 10,
        ensures
            b == self.adjacent(u as int, v as int),
    {
        self.matrix[u as usize][v as usize]
    }

    /// The vertices among `1..=9` that are joined to `u`, in increasing order.
    /// Slot 0 is never among them, whatever edges it has.
    pub fn neighbors(&self, u: u32) -> (out: Vec<u32>)
        requires
            u < 10,
        ensures
            self.is_neighbor_list(u as int, out@),
            out@.len() <= 9,
    {
        let mut out: Vec<u32> = Vec::new();
        let mut v: u32 = 1;
        while v <= 9
            invariant
                u < 10,
                1 <= v <= 10,
                out@.len() < v,
                forall|k: int| 0 <= k < out@.len() ==> 1 <= #[trigger] out@[k] < v,
                forall|k: int|
                    0 <= k < out@.len() ==> self.adjacent(u as int, #[trigger] out@[k] as int),
                forall|i: int, j: int| 0 <= i < j < out@.len() ==> out@[i] < out@[j],
                forall|w: u32|
                    1 <= w < v && self.adjacent(u as int, w as int) ==> out@.contains(w),
            decreases 10 - v,
        {
            if self.get(u, v) {
                let ghost before = out@;
                out.push(v);
                assert(out@[before.len() as int] == v);
                assert forall|w: u32|
                    1 <= w < v + 1 && self.adjacent(u as int, w as int) implies out@.contains(w) by {
                    if w < v {
                        let k = choose|k: int| 0 <= k < before.len() && before[k] == w;
                        assert(out@[k] == w);
                    }
                }
            }
            v += 1;
        }
        out
    }

    /// The graph of the grid: the points `1..=9` row by row, each joined to
    /// every point that a straight stroke reaches without passing over a
    /// third one, and the placeholder 0 joined to point 1.
    pub fn grid() -> (g: Self)
        ensures
            g@ == grid_edges(),
            g.symmetric(),
            g.loop_free(),
    {
        let mut g = PatternGraph::new();
        g.set(0, 1);
        g.set(1, 2);
        g.set(1, 4);
        g.set(1, 5);
        g.set(1, 6);
        g.set(1, 8);
        g.set(2, 3);
        g.set(2, 4);
        g.set(2, 5);
        g.set(2, 6);
        g.set(2, 7);
        g.set(2, 9);
        g.set(3, 4);
        g.set(3, 5);
        g.set(3, 6);
        g.set(3, 8);
        g.set(4, 5);
        g.set(4, 7);
        g.set(4, 8);
        g.set(4, 9);
        g.set(5, 6);
        g.set(5, 7);
        g.set(5, 8);
        g.set(5, 9);
        g.set(6, 7);
        g.set(6, 8);
        g.set(6, 9);
        g.set(7, 8);
        g.set(8, 9);
        assert(g@ =~= grid_edges());
        g
    }
}

/// Whether the unordered pair `{a, b}`, written with `a < b`, is an edge of
/// the grid graph.
pub open spec fn grid_pair(a: int, b: int) -> bool {
    ||| a == 0 && b == 1
    ||| a == 1 && (b == 2 || b == 4 || b == 5 || b == 6 || b == 8)
    ||| a == 2 && (b == 3 || b == 4 || b == 5 || b == 6 || b == 7 || b == 9)
    ||| a == 3 && (b == 4 || b == 5 || b == 6 || b == 8)
    ||| a == 4 && (b == 5 || b == 7 || b == 8 || b == 9)
    ||| a == 5 && (b == 6 || b == 7 || b == 8 || b == 9)
    ||| a == 6 && (b == 7 || b == 8 || b == 9)
    ||| a == 7 && b == 8
    ||| a == 8 && b == 9
}

/// The edges of the grid graph, each in both directions.
pub open spec fn grid_edges() -> Set<(int, int)> {
    Set::new(|p: (int, int)| grid_pair(p.0, p.1) || grid_pair(p.1, p.0))
}

/// In a graph without self-loops, the list of the neighbours of a vertex
/// holds neither the placeholder 0 nor the vertex itself.
pub proof fn lemma_neighbors_exclude_zero_and_self(g: PatternGraph, u: int, out: Seq<u32>)
    requires
        g.loop_free(),
        g.is_neighbor_list(u, out),
    ensures
        forall|k: int| 0 <= k < out.len() ==> #[trigger] out[k] != 0 && out[k] as int != u,
{
}

/// Two strictly increasing sequences with the same members are equal.
proof fn lemma_increasing_same_members(a: Seq<u32>, b: Seq<u32>)
    requires
        forall|i: int, j: int| 0 <= i < j < a.len() ==> a[i] < a[j],
        forall|i: int, j: int| 0 <= i < j < b.len() ==> b[i] < b[j],
        forall|v: u32| a.contains(v) <==> b.contains(v),
    ensures
        a == b,
    decreases a.len(),
{
    if a.len() == 0 || b.len() == 0 {
        if a.len() > 0 {
            assert(a.contains(a[0]));
        }
        if b.len() > 0 {
            assert(b.contains(b[0]));
        }
        assert(a =~= b);
    } else {
        let x = a.last();
        let y = b.last();
        assert(a.contains(x) && b.contains(y));
        let jx = choose|j: int| 0 <= j < b.len() && b[j] == x;
        let iy = choose|i: int| 0 <= i < a.len() && a[i] == y;
        assert(x == y) by {
            if jx < b.len() - 1 {
                assert(b[jx] < b[b.len() - 1]);
            }
            if iy < a.len() - 1 {
                assert(a[iy] < a[a.len() - 1]);
            }
        }
        let a1 = a.drop_last();
        let b1 = b.drop_last();
        assert forall|v: u32| a1.contains(v) <==> b1.contains(v) by {
            if a1.contains(v) {
                let i = choose|i: int| 0 <= i < a1.len() && a1[i] == v;
                assert(a[i] < a[a.len() - 1]);
                assert(a.contains(v));
                let j = choose|j: int| 0 <= j < b.len() && b[j] == v;
                assert(b1[j] == v);
            }
            if b1.contains(v) {
                let j = choose|j: int| 0 <= j < b1.len() && b1[j] == v;
                assert(b[j] < b[b.len() - 1]);
                assert(b.contains(v));
                let i = choose|i: int| 0 <= i < a.len() && a[i] == v;
                assert(a1[i] == v);
            }
        }
        lemma_increasing_same_members(a1, b1);
        assert(a =~= a1.push(x));
        assert(b =~= b1.push(y));
    }
}

/// A vertex has one list of neighbours only: what `neighbors` returns is
/// fixed by the graph and the vertex.
pub proof fn lemma_neighbor_list_is_unique(g: PatternGraph, u: int, a: Seq<u32>, b: Seq<u32>)
    requires
        g.is_neighbor_list(u, a),
        g.is_neighbor_list(u, b),
    ensures
        a == b,
{
    assert forall|v: u32| a.contains(v) <==> b.contains(v) by {
        if a.contains(v) {
            let i = choose|i: int| 0 <= i < a.len() && a[i] == v;
            assert(1 <= a[i] <= 9 && g.adjacent(u, a[i] as int));
        }
        if b.contains(v) {
            let j = choose|j: int| 0 <= j < b.len() && b[j] == v;
            assert(1 <= b[j] <= 9 && g.adjacent(u, b[j] as int));
        }
    }
    lemma_increasing_same_members(a, b);
}

} // verus!
