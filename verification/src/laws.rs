//! What holds of every route and of every complete listing of routes.

use crate::graph::PatternGraph;
use crate::search::{
    completes, differ_at, is_route, is_trail, lex_lt, lists_completions, lists_routes, on_trail,
};
use vstd::prelude::*;

verus! {

/// What the search records visits each of the vertices `1..=9` exactly
/// once: no vertex stands at two of the positions `1..=9`, and none is left
/// out. This holds of every route, and of every completion of a partial
/// route.
pub proof fn lemma_route_is_permutation(g: PatternGraph, r: Seq<u32>)
    requires
        is_trail(g, r, 9),
    ensures
        forall|i: int, j: int| 1 <= i < j <= 9 ==> r[i] != r[j],
        forall|v: int| 1 <= v <= 9 ==> on_trail(r, 9, v),
{
    let s = Seq::new(9, |i: int| r[i + 1] as int);
    let all = vstd::set_lib::set_int_range(1, 10);
    assert(s.no_duplicates()) by {
        assert forall|i: int, j: int| 0 <= i < s.len() && 0 <= j < s.len() && i != j implies s[i]
            != s[j] by {
            if i < j {
                assert(r[i + 1] != r[j + 1]);
            } else {
                assert(r[j + 1] != r[i + 1]);
            }
        }
    }
    s.unique_seq_to_set();
    vstd::set_lib::lemma_int_range(1, 10);
    assert(s.to_set().subset_of(all)) by {
        assert forall|x: int| s.to_set().contains(x) implies all.contains(x) by {
            let i = choose|i: int| 0 <= i < s.len() && s[i] == x;
            assert(1 <= r[i + 1] <= 9);
        }
    }
    vstd::set_lib::lemma_len_subset(s.to_set(), all);
    vstd::set_lib::lemma_subset_equality(s.to_set(), all);
    assert forall|v: int| 1 <= v <= 9 implies on_trail(r, 9, v) by {
        assert(all.contains(v));
        assert(s.to_set().contains(v));
        let i = choose|i: int| 0 <= i < s.len() && s[i] == v;
        assert(r[i + 1] == v);
    }
}

/// Every step of what the search records, from one of the positions `1..=8`
/// to the next, goes along an edge of the graph.
pub proof fn lemma_route_follows_edges(g: PatternGraph, r: Seq<u32>, i: int)
    requires
        is_trail(g, r, 9),
        1 <= i <= 8,
    ensures
        g.adjacent(r[i] as int, r[i + 1] as int),
{
}

/// No sequence comes before itself, and of two sequences at most one comes
/// before the other.
pub proof fn lemma_lex_asymmetric(a: Seq<u32>, b: Seq<u32>)
    requires
        lex_lt(a, b),
    ensures
        !lex_lt(b, a),
        a != b,
{
    let k = choose|k: int| differ_at(a, b, k);
    if lex_lt(b, a) {
        let m = choose|m: int| differ_at(b, a, m);
        if k < m {
            assert(b[k] == a[k]);
        } else if m < k {
            assert(a[m] == b[m]);
        }
    }
}

/// The entries of `s` stand in strict lexicographic order.
pub open spec fn ascending(s: Seq<[u32; 10]>) -> bool {
    forall|i: int, j: int| 0 <= i < j < s.len() ==> lex_lt((#[trigger] s[i])@, (#[trigger] s[j])@)
}

/// `r` is the view of an entry of `s`.
pub open spec fn holds(s: Seq<[u32; 10]>, r: Seq<u32>) -> bool {
    exists|j: int| 0 <= j < s.len() && (#[trigger] s[j])@ == r
}

/// Two non-empty listings in strict lexicographic order that hold the same
/// sequences begin with the same one.
proof fn lemma_first_is_least(a: Seq<[u32; 10]>, b: Seq<[u32; 10]>)
    requires
        a.len() > 0,
        b.len() > 0,
        ascending(a),
        ascending(b),
        forall|i: int| 0 <= i < a.len() ==> holds(b, (#[trigger] a[i])@),
        forall|j: int| 0 <= j < b.len() ==> holds(a, (#[trigger] b[j])@),
    ensures
        a[0]@ == b[0]@,
{
    assert(holds(b, a[0]@));
    assert(holds(a, b[0]@));
    let j = choose|j: int| 0 <= j < b.len() && (#[trigger] b[j])@ == a[0]@;
    let i = choose|i: int| 0 <= i < a.len() && (#[trigger] a[i])@ == b[0]@;
    if j > 0 {
        assert(lex_lt(b[0]@, b[j]@));
        lemma_lex_asymmetric(b[0]@, b[j]@);
        if i > 0 {
            assert(lex_lt(a[0]@, a[i]@));
        }
    }
}

/// Two listings in strict lexicographic order that hold the same sequences
/// are equal.
proof fn lemma_sorted_listings_equal(a: Seq<[u32; 10]>, b: Seq<[u32; 10]>)
    requires
        ascending(a),
        ascending(b),
        forall|i: int| 0 <= i < a.len() ==> holds(b, (#[trigger] a[i])@),
        forall|j: int| 0 <= j < b.len() ==> holds(a, (#[trigger] b[j])@),
    ensures
        a == b,
    decreases a.len(),
{
    if a.len() == 0 {
        if b.len() > 0 {
            assert(holds(a, b[0]@));
        }
        assert(a =~= b);
    } else {
        if b.len() == 0 {
            assert(holds(b, a[0]@));
        }
        lemma_first_is_least(a, b);
        let a1 = a.skip(1);
        let b1 = b.skip(1);
        assert(ascending(a1)) by {
            assert forall|i: int, j: int| 0 <= i < j < a1.len() implies lex_lt(
                (#[trigger] a1[i])@,
                (#[trigger] a1[j])@,
            ) by {
                assert(lex_lt(a[i + 1]@, a[j + 1]@));
            }
        }
        assert(ascending(b1)) by {
            assert forall|i: int, j: int| 0 <= i < j < b1.len() implies lex_lt(
                (#[trigger] b1[i])@,
                (#[trigger] b1[j])@,
            ) by {
                assert(lex_lt(b[i + 1]@, b[j + 1]@));
            }
        }
        assert forall|i: int| 0 <= i < a1.len() implies holds(b1, (#[trigger] a1[i])@) by {
            assert(holds(b, a[i + 1]@));
            let j = choose|j: int| 0 <= j < b.len() && (#[trigger] b[j])@ == a[i + 1]@;
            assert(lex_lt(a[0]@, a[i + 1]@));
            lemma_lex_asymmetric(a[0]@, a[i + 1]@);
            assert(j > 0);
            assert(b1[j - 1] == b[j]);
            assert(a1[i] == a[i + 1]);
        }
        assert forall|j: int| 0 <= j < b1.len() implies holds(a1, (#[trigger] b1[j])@) by {
            assert(holds(a, b[j + 1]@));
            let i = choose|i: int| 0 <= i < a.len() && (#[trigger] a[i])@ == b[j + 1]@;
            assert(lex_lt(b[0]@, b[j + 1]@));
            lemma_lex_asymmetric(b[0]@, b[j + 1]@);
            assert(i > 0);
            assert(a1[i - 1] == a[i]);
            assert(b1[j] == b[j + 1]);
        }
        lemma_sorted_listings_equal(a1, b1);
        assert(a[0] =~= b[0]);
        assert(a =~= b) by {
            assert forall|i: int| 0 <= i < a.len() implies a[i] == b[i] by {
                if i > 0 {
                    assert(a1[i - 1] == a[i]);
                    assert(b1[i - 1] == b[i]);
                }
            }
            assert(a.len() == a1.len() + 1);
            assert(b.len() == b1.len() + 1);
        }
    }
}

/// A graph has one complete listing of its routes only: whatever two
/// searches of the same graph return, they return the same routes in the
/// same order.
pub proof fn lemma_listing_is_unique(g: PatternGraph, a: Seq<[u32; 10]>, b: Seq<[u32; 10]>)
    requires
        lists_routes(g, a),
        lists_routes(g, b),
    ensures
        a == b,
{
    assert forall|i: int| 0 <= i < a.len() implies holds(b, (#[trigger] a[i])@) by {
        assert(is_route(g, a[i]@));
    }
    assert forall|j: int| 0 <= j < b.len() implies holds(a, (#[trigger] b[j])@) by {
        assert(is_route(g, b[j]@));
    }
    lemma_sorted_listings_equal(a, b);
}

/// A partial route has one complete listing of its completions only:
/// whatever two searches from the same state append, they append the same
/// routes in the same order.
pub proof fn lemma_completions_listing_is_unique(
    g: PatternGraph,
    q: Seq<u32>,
    d: int,
    a: Seq<[u32; 10]>,
    b: Seq<[u32; 10]>,
)
    requires
        lists_completions(g, q, d, a, 0),
        lists_completions(g, q, d, b, 0),
    ensures
        a == b,
{
    assert forall|i: int| 0 <= i < a.len() implies holds(b, (#[trigger] a[i])@) by {
        assert(completes(g, q, d, a[i]@));
    }
    assert forall|j: int| 0 <= j < b.len() implies holds(a, (#[trigger] b[j])@) by {
        assert(completes(g, q, d, b[j]@));
    }
    lemma_sorted_listings_equal(a, b);
}

/// Where the placeholder 0 is joined to vertex 1 and to no other vertex
/// among `1..=9`, a search entered at depth 0 from slot 0 lists the routes:
/// what completes the starting slot is a route, and every route does.
pub proof fn lemma_start_completions_are_routes(
    g: PatternGraph,
    q: Seq<u32>,
    all: Seq<[u32; 10]>,
)
    requires
        q.len() > 0,
        q[0] == 0,
        forall|v: int| 1 <= v <= 9 ==> (g.adjacent(0, v) <==> v == 1),
        lists_completions(g, q, 0, all, 0),
    ensures
        lists_routes(g, all),
{
    assert forall|j: int| 0 <= j < all.len() implies is_route(g, (#[trigger] all[j])@) by {
        let r = all[j]@;
        assert(completes(g, q, 0, r));
        assert(r[0] == q[0]);
        assert(1 <= r[1] <= 9);
    }
    assert forall|r: Seq<u32>| #[trigger] is_route(g, r) implies exists|j: int|
        0 <= j < all.len() && (#[trigger] all[j])@ == r by {
        assert forall|i: int| 0 <= i <= 0 implies #[trigger] r[i] == q[i] by {}
        assert(completes(g, q, 0, r));
    }
}

} // verus!
