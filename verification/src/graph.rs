use vstd::prelude::*;

verus! {

/// An edge of the model: it joins vertex `vert_idx1` of the base copy to
/// vertex `vert_idx2` of the copy rotated by symmetry `symmetry_idx2`.
#[derive(Clone, Copy, Debug, PartialEq, Eq, Structural)]
pub struct Edge {
    pub vert_idx1: usize,
    pub vert_idx2: usize,
    pub symmetry_idx2: usize,
}

/// One end of an edge, seen from the vertex it touches: `First(e)` when the
/// vertex is `vert_idx1` of edge `e`, `Second(e)` when it is `vert_idx2`.
#[derive(Clone, Copy, Debug, PartialEq, Eq, Structural)]
pub enum EdgeEnd {
    First(usize),
    Second(usize),
}

/// Every edge joins two vertices among the first `n`.
pub open spec fn edges_within(edges: Seq<Edge>, n: nat) -> bool {
    forall|i: int|
        0 <= i < edges.len() ==> (#[trigger] edges[i]).vert_idx1 < n && edges[i].vert_idx2 < n
}

/// Every edge names one of the first `n` symmetries.
pub open spec fn symmetries_within(edges: Seq<Edge>, n: nat) -> bool {
    forall|i: int| 0 <= i < edges.len() ==> (#[trigger] edges[i]).symmetry_idx2 < n
}

/// The ends of edges that touch vertex `v`, in edge order; an edge from `v`
/// to itself contributes its first end, then its second.
pub open spec fn ends_at(edges: Seq<Edge>, v: int) -> Seq<EdgeEnd>
    decreases edges.len(),
{
    if edges.len() == 0 {
        Seq::empty()
    } else {
        let i = edges.len() - 1;
        let e = edges[i];
        ends_at(edges.drop_last(), v) + (if e.vert_idx1 == v {
            seq![EdgeEnd::First(i as usize)]
        } else {
            Seq::empty()
        }) + (if e.vert_idx2 == v {
            seq![EdgeEnd::Second(i as usize)]
        } else {
            Seq::empty()
        })
    }
}

/// How many edge ends touch vertex `v`.
pub open spec fn degree(edges: Seq<Edge>, v: int) -> nat
    decreases edges.len(),
{
    if edges.len() == 0 {
        0
    } else {
        let e = edges.last();
        degree(edges.drop_last(), v) + (if e.vert_idx1 == v {
            1nat
        } else {
            0nat
        }) + (if e.vert_idx2 == v {
            1nat
        } else {
            0nat
        })
    }
}

/// The edges `start + i -> start + i + 1` for `0 <= i < len`, all within
/// the base copy.
pub open spec fn chain_edges(start: nat, len: nat) -> Seq<Edge> {
    Seq::new(
        len,
        |i: int|
            Edge {
                vert_idx1: (start + i) as usize,
                vert_idx2: (start + i + 1) as usize,
                symmetry_idx2: 0,
            },
    )
}

/// The edges of one copy of a regular polygon with `k` vertices per copy:
/// a chain through the copy's vertices, closed by an edge from its last
/// vertex to the first vertex of the next copy.
pub open spec fn polygon_edges(k: nat) -> Seq<Edge> {
    chain_edges(0, (k - 1) as nat).push(
        Edge { vert_idx1: (k - 1) as usize, vert_idx2: 0, symmetry_idx2: 1 },
    )
}


/// The sum of the degrees of the first `n` vertices.
pub open spec fn degree_sum(edges: Seq<Edge>, n: nat) -> nat
    decreases n,
{
    if n == 0 {
        0
    } else {
        degree_sum(edges, (n - 1) as nat) + degree(edges, n - 1)
    }
}

/// The list of ends at a vertex is as long as its degree.
pub proof fn lemma_ends_len(edges: Seq<Edge>, v: int)
    ensures
        ends_at(edges, v).len() == degree(edges, v),
    decreases edges.len(),
{
    if edges.len() > 0 {
        lemma_ends_len(edges.drop_last(), v);
    }
}

/// Degrees add up over concatenated edge lists.
pub proof fn lemma_degree_concat(a: Seq<Edge>, b: Seq<Edge>, v: int)
    ensures
        degree(a + b, v) == degree(a, v) + degree(b, v),
    decreases b.len(),
{
    if b.len() == 0 {
        assert(a + b =~= a);
    } else {
        lemma_degree_concat(a, b.drop_last(), v);
        assert((a + b).drop_last() =~= a + b.drop_last());
        assert((a + b).last() == b.last());
    }
}

/// A vertex that no edge can reach has degree zero.
pub proof fn lemma_degree_outside(edges: Seq<Edge>, n: nat, v: int)
    requires
        edges_within(edges, n),
        v < 0 || v >= n,
    ensures
        degree(edges, v) == 0,
    decreases edges.len(),
{
    if edges.len() > 0 {
        assert(edges_within(edges.drop_last(), n)) by {
            assert forall|i: int| 0 <= i < edges.drop_last().len() implies
                (#[trigger] edges.drop_last()[i]).vert_idx1 < n
                && edges.drop_last()[i].vert_idx2 < n by {
                assert(edges.drop_last()[i] == edges[i]);
            }
        }
        lemma_degree_outside(edges.drop_last(), n, v);
        assert(edges.last() == edges[edges.len() - 1]);
    }
}

/// In a chain, a vertex strictly inside has degree two, its two ends have
/// degree one, and every other vertex degree zero.
pub proof fn lemma_degree_chain(start: nat, len: nat, v: int)
    requires
        start + len <= usize::MAX,
    ensures
        degree(chain_edges(start, len), v) == (if start <= v < start + len {
            1nat
        } else {
            0nat
        }) + (if start + 1 <= v <= start + len {
            1nat
        } else {
            0nat
        }),
    decreases len,
{
    if len == 0 {
        assert(chain_edges(start, len) =~= Seq::empty());
    } else {
        lemma_degree_chain(start, (len - 1) as nat, v);
        assert(chain_edges(start, len).drop_last() =~= chain_edges(start, (len - 1) as nat));
    }
}


/// Adding one edge adds one to the degree sum for each of its ends among
/// the first `n` vertices.
pub proof fn lemma_degree_sum_push(edges: Seq<Edge>, e: Edge, n: nat)
    ensures
        degree_sum(edges.push(e), n) == degree_sum(edges, n) + (if e.vert_idx1 < n {
            1nat
        } else {
            0nat
        }) + (if e.vert_idx2 < n {
            1nat
        } else {
            0nat
        }),
    decreases n,
{
    assert(edges.push(e).drop_last() =~= edges);
    if n > 0 {
        lemma_degree_sum_push(edges, e, (n - 1) as nat);
    }
}

/// Every vertex of a polygon copy touches exactly two edge ends, and no
/// other vertex touches any.
pub proof fn law_polygon_vertices_have_two_edges(k: nat, v: int)
    requires
        1 <= k <= usize::MAX,
    ensures
        degree(polygon_edges(k), v) == (if 0 <= v < k {
            2nat
        } else {
            0nat
        }),
{
    lemma_degree_chain(0, (k - 1) as nat, v);
    assert(polygon_edges(k).drop_last() =~= chain_edges(0, (k - 1) as nat));
}

/// Each edge has two ends: when every edge joins vertices among the first
/// `n`, their degrees add up to twice the number of edges.
pub proof fn law_degrees_sum_to_twice_the_edges(edges: Seq<Edge>, n: nat)
    requires
        edges_within(edges, n),
    ensures
        degree_sum(edges, n) == 2 * edges.len(),
    decreases edges.len(),
{
    if edges.len() == 0 {
        lemma_degree_sum_zero(edges, n);
    } else {
        let prefix = edges.drop_last();
        assert(edges_within(prefix, n)) by {
            assert forall|i: int| 0 <= i < prefix.len() implies
                (#[trigger] prefix[i]).vert_idx1 < n && prefix[i].vert_idx2 < n by {
                assert(prefix[i] == edges[i]);
            }
        }
        law_degrees_sum_to_twice_the_edges(prefix, n);
        assert(prefix.push(edges.last()) =~= edges);
        assert(edges[edges.len() - 1] == edges.last());
        lemma_degree_sum_push(prefix, edges.last(), n);
    }
}

/// With no edges, every degree is zero.
proof fn lemma_degree_sum_zero(edges: Seq<Edge>, n: nat)
    requires
        edges.len() == 0,
    ensures
        degree_sum(edges, n) == 0,
    decreases n,
{
    if n > 0 {
        lemma_degree_sum_zero(edges, (n - 1) as nat);
    }
}


/// The edges that close a new polygon onto the existing vertices `first`
/// and `last`: a chain through the `k` new vertices `base .. base + k`,
/// then an edge from `first` to the first new vertex and one from `last`
/// to the last new vertex.
pub open spec fn extension_edges(base: nat, k: nat, first: usize, last: usize) -> Seq<Edge> {
    chain_edges(base, (k - 1) as nat).push(
        Edge { vert_idx1: first, vert_idx2: base as usize, symmetry_idx2: 0 },
    ).push(Edge { vert_idx1: last, vert_idx2: (base + k - 1) as usize, symmetry_idx2: 0 })
}

/// Closing a polygon gives each new vertex two edge ends and one more end
/// to each of `first` and `last`.
pub proof fn law_extension_degrees(base: nat, k: nat, first: usize, last: usize, v: int)
    requires
        k >= 1,
        base + k <= usize::MAX,
        first < base,
        last < base,
    ensures
        degree(extension_edges(base, k, first, last), v) == (if v == first {
            1nat
        } else {
            0nat
        }) + (if v == last {
            1nat
        } else {
            0nat
        }) + (if base <= v < base + k {
            2nat
        } else {
            0nat
        }),
{
    let chain = chain_edges(base, (k - 1) as nat);
    let a = Edge { vert_idx1: first, vert_idx2: base as usize, symmetry_idx2: 0 };
    let b = Edge { vert_idx1: last, vert_idx2: (base + k - 1) as usize, symmetry_idx2: 0 };
    lemma_degree_chain(base, (k - 1) as nat, v);
    assert(chain.push(a).drop_last() =~= chain);
    assert(chain.push(a).push(b).drop_last() =~= chain.push(a));
    assert(chain.push(a).last() == a);
    assert(chain.push(a).push(b).last() == b);
    assert(degree(chain.push(a), v) == degree(chain, v) + (if first == v {
        1nat
    } else {
        0nat
    }) + (if base == v {
        1nat
    } else {
        0nat
    }));
}


/// The vertices among the first `n` that touch exactly `d` edge ends, in
/// increasing order.
pub open spec fn verts_of_degree(edges: Seq<Edge>, n: nat, d: nat) -> Seq<usize>
    decreases n,
{
    if n == 0 {
        Seq::empty()
    } else {
        verts_of_degree(edges, (n - 1) as nat, d) + (if degree(edges, n - 1) == d {
            seq![(n - 1) as usize]
        } else {
            Seq::empty()
        })
    }
}

/// The vertices among the first `n` that touch exactly two edge ends, in
/// increasing order.
pub open spec fn two_edge_verts(edges: Seq<Edge>, n: nat) -> Seq<usize> {
    verts_of_degree(edges, n, 2)
}

/// A vertex with exactly two edge ends, together with those two ends.
pub open spec fn spur_request(edges: Seq<Edge>, v: usize) -> (usize, EdgeEnd, EdgeEnd) {
    (v, ends_at(edges, v as int)[0], ends_at(edges, v as int)[1])
}

/// One new edge for each vertex `verts[j]`, from it to the new vertex
/// `base + j`.
pub open spec fn spur_edges(verts: Seq<usize>, base: nat) -> Seq<Edge> {
    Seq::new(
        verts.len(),
        |j: int| Edge { vert_idx1: verts[j], vert_idx2: (base + j) as usize, symmetry_idx2: 0 },
    )
}

/// There are never more two-edge vertices than vertices, and the list only
/// grows as more vertices are looked at.
pub proof fn lemma_two_edge_verts_len(edges: Seq<Edge>, a: nat, b: nat)
    requires
        a <= b,
    ensures
        two_edge_verts(edges, a).len() <= two_edge_verts(edges, b).len(),
        two_edge_verts(edges, b).len() <= b,
    decreases b,
{
    if b > 0 {
        if a < b {
            lemma_two_edge_verts_len(edges, a, (b - 1) as nat);
        } else {
            lemma_two_edge_verts_len(edges, (b - 1) as nat, (b - 1) as nat);
        }
    }
}

/// The spurs added for the two-edge vertices among the first `n` touch each
/// of those vertices once and each new vertex once.
pub proof fn lemma_spur_degree(edges: Seq<Edge>, n: nat, base: nat, v: int)
    requires
        n <= base,
        base + two_edge_verts(edges, n).len() <= usize::MAX,
    ensures
        degree(spur_edges(two_edge_verts(edges, n), base), v) == (if 0 <= v < n && degree(
            edges,
            v,
        ) == 2 {
            1nat
        } else {
            0nat
        }) + (if base <= v < base + two_edge_verts(edges, n).len() {
            1nat
        } else {
            0nat
        }),
    decreases n,
{
    let tv = two_edge_verts(edges, n);
    if n == 0 {
        assert(spur_edges(tv, base) =~= Seq::empty());
    } else {
        let prev = two_edge_verts(edges, (n - 1) as nat);
        lemma_two_edge_verts_len(edges, (n - 1) as nat, n);
        lemma_spur_degree(edges, (n - 1) as nat, base, v);
        if degree(edges, n - 1) == 2 {
            let e = Edge {
                vert_idx1: (n - 1) as usize,
                vert_idx2: (base + prev.len()) as usize,
                symmetry_idx2: 0,
            };
            assert(spur_edges(tv, base) =~= spur_edges(prev, base).push(e));
            assert(spur_edges(prev, base).push(e).drop_last() =~= spur_edges(prev, base));
        } else {
            assert(tv =~= prev);
        }
    }
}

/// Every listed two-edge vertex is one of the first `n`.
pub proof fn lemma_two_edge_verts_bound(edges: Seq<Edge>, n: nat, j: int)
    requires
        0 <= j < two_edge_verts(edges, n).len(),
    ensures
        two_edge_verts(edges, n)[j] < n,
    decreases n,
{
    let prev = two_edge_verts(edges, (n - 1) as nat);
    if j < prev.len() {
        lemma_two_edge_verts_bound(edges, (n - 1) as nat, j);
        assert(two_edge_verts(edges, n)[j] == prev[j]);
    }
}

/// When no vertex among the first `m` touches exactly two edge ends, there
/// is no two-edge vertex to list.
pub proof fn lemma_no_two_edge_verts(edges: Seq<Edge>, m: nat)
    requires
        forall|v: int| 0 <= v < m ==> #[trigger] degree(edges, v) != 2,
    ensures
        two_edge_verts(edges, m) == Seq::<usize>::empty(),
    decreases m,
{
    if m > 0 {
        lemma_no_two_edge_verts(edges, (m - 1) as nat);
        assert(degree(edges, m - 1) != 2);
        assert(two_edge_verts(edges, m) =~= Seq::<usize>::empty());
    }
}

/// After a spur is added at every two-edge vertex of a model with `n`
/// vertices, each of those vertices touches three edge ends, each new
/// vertex touches one, every other vertex keeps its degree, and so no
/// vertex is left touching exactly two: adding spurs a second time adds
/// nothing.
pub proof fn law_spurs_leave_no_two_edge_vertex(edges: Seq<Edge>, n: nat)
    requires
        edges_within(edges, n),
        n + two_edge_verts(edges, n).len() <= usize::MAX,
    ensures
        forall|v: int|
            0 <= v < n ==> #[trigger] degree(
                edges + spur_edges(two_edge_verts(edges, n), n),
                v,
            ) == if degree(edges, v) == 2 {
                3
            } else {
                degree(edges, v)
            },
        forall|v: int|
            n <= v < n + two_edge_verts(edges, n).len() ==> #[trigger] degree(
                edges + spur_edges(two_edge_verts(edges, n), n),
                v,
            ) == 1,
        two_edge_verts(
            edges + spur_edges(two_edge_verts(edges, n), n),
            n + two_edge_verts(edges, n).len(),
        ) == Seq::<usize>::empty(),
{
    let spurs = spur_edges(two_edge_verts(edges, n), n);
    let all = edges + spurs;
    let k = two_edge_verts(edges, n).len();
    lemma_two_edge_verts_len(edges, n, n);
    assert forall|v: int| 0 <= v < n + k implies #[trigger] degree(all, v) == if v < n {
        if degree(edges, v) == 2 {
            3
        } else {
            degree(edges, v)
        }
    } else {
        1
    } by {
        lemma_degree_concat(edges, spurs, v);
        lemma_spur_degree(edges, n, n, v);
        if v >= n {
            lemma_degree_outside(edges, n, v);
        }
    }
    assert forall|v: int| 0 <= v < n implies #[trigger] degree(all, v) == if degree(edges, v)
        == 2 {
        3
    } else {
        degree(edges, v)
    } by {
        assert(0 <= v < n + k);
    }
    assert forall|v: int| n <= v < n + k implies #[trigger] degree(all, v) == 1 by {
        assert(0 <= v < n + k);
    }
    assert forall|v: int| 0 <= v < n + k implies #[trigger] degree(all, v) != 2 by {
        assert(0 <= v < n + k);
    }
    lemma_no_two_edge_verts(all, n + k);
}


/// A polygon copy with `k` vertices has `k` edges: edge `i < k - 1` runs
/// from vertex `i` to vertex `i + 1` of the same copy, and the last runs
/// from vertex `k - 1` to vertex `0` of the next copy.
pub proof fn law_polygon_edges_explicit(k: nat)
    requires
        1 <= k <= usize::MAX,
    ensures
        polygon_edges(k).len() == k,
        forall|i: int|
            0 <= i < k - 1 ==> #[trigger] polygon_edges(k)[i] == (Edge {
                vert_idx1: i as usize,
                vert_idx2: (i + 1) as usize,
                symmetry_idx2: 0,
            }),
        polygon_edges(k)[k - 1] == (Edge {
            vert_idx1: (k - 1) as usize,
            vert_idx2: 0,
            symmetry_idx2: 1,
        }),
{
}

/// Closing a polygon onto the path from `first` to `last` with `k` new
/// vertices `base .. base + k` adds `k + 1` edges: the chain
/// `base + i -> base + i + 1`, then `first -> base`, then
/// `last -> base + k - 1`.
pub proof fn law_extension_edges_explicit(base: nat, k: nat, first: usize, last: usize)
    requires
        k >= 1,
        base + k <= usize::MAX,
    ensures
        extension_edges(base, k, first, last).len() == k + 1,
        forall|i: int|
            0 <= i < k - 1 ==> #[trigger] extension_edges(base, k, first, last)[i] == (Edge {
                vert_idx1: (base + i) as usize,
                vert_idx2: (base + i + 1) as usize,
                symmetry_idx2: 0,
            }),
        extension_edges(base, k, first, last)[k - 1] == (Edge {
            vert_idx1: first,
            vert_idx2: base as usize,
            symmetry_idx2: 0,
        }),
        extension_edges(base, k, first, last)[k as int] == (Edge {
            vert_idx1: last,
            vert_idx2: (base + k - 1) as usize,
            symmetry_idx2: 0,
        }),
{
}

/// An edge end really belongs to vertex `v`: `First(i)` when edge `i`
/// starts at `v`, `Second(i)` when edge `i` ends at `v`.
pub open spec fn end_touches(edges: Seq<Edge>, v: int, end: EdgeEnd) -> bool {
    match end {
        EdgeEnd::First(i) => i < edges.len() && edges[i as int].vert_idx1 == v,
        EdgeEnd::Second(i) => i < edges.len() && edges[i as int].vert_idx2 == v,
    }
}

/// Where an edge end falls in edge order: the ends of edge `i` come after
/// those of earlier edges, its first end before its second.
pub open spec fn end_rank(end: EdgeEnd) -> int {
    match end {
        EdgeEnd::First(i) => 2 * i,
        EdgeEnd::Second(i) => 2 * i + 1,
    }
}

/// The ends listed at a vertex are exactly the ends of edges at that vertex,
/// each once: every listed end touches `v`; for every edge `i`, `First(i)`
/// is listed at its first vertex and `Second(i)` at its second; and no end
/// is listed twice; they come in edge order.
pub proof fn law_ends_at_exact(edges: Seq<Edge>, v: int)
    requires
        edges.len() <= usize::MAX,
    ensures
        forall|j: int|
            0 <= j < ends_at(edges, v).len() ==> end_touches(
                edges,
                v,
                #[trigger] ends_at(edges, v)[j],
            ),
        forall|i: int|
            0 <= i < edges.len() && #[trigger] edges[i].vert_idx1 == v ==> ends_at(
                edges,
                v,
            ).contains(EdgeEnd::First(i as usize)),
        forall|i: int|
            0 <= i < edges.len() && #[trigger] edges[i].vert_idx2 == v ==> ends_at(
                edges,
                v,
            ).contains(EdgeEnd::Second(i as usize)),
        forall|j1: int, j2: int|
            0 <= j1 < j2 < ends_at(edges, v).len() ==> #[trigger] ends_at(edges, v)[j1]
                != #[trigger] ends_at(edges, v)[j2],
        forall|j1: int, j2: int|
            0 <= j1 < j2 < ends_at(edges, v).len() ==> end_rank(#[trigger] ends_at(edges, v)[j1])
                < end_rank(#[trigger] ends_at(edges, v)[j2]),
    decreases edges.len(),
{
    if edges.len() > 0 {
        let prefix = edges.drop_last();
        let last = (edges.len() - 1) as int;
        let e = edges[last];
        let a = if e.vert_idx1 == v {
            seq![EdgeEnd::First(last as usize)]
        } else {
            Seq::<EdgeEnd>::empty()
        };
        let b = if e.vert_idx2 == v {
            seq![EdgeEnd::Second(last as usize)]
        } else {
            Seq::<EdgeEnd>::empty()
        };
        let pre = ends_at(prefix, v);
        law_ends_at_exact(prefix, v);
        let all = ends_at(edges, v);
        assert(edges.last() == e);
        assert(all == pre + a + b);
        // Entries of the prefix name earlier edges; the new ones name the last.
        assert forall|j: int| 0 <= j < pre.len() implies match #[trigger] pre[j] {
            EdgeEnd::First(i) => i < last,
            EdgeEnd::Second(i) => i < last,
        } by {
            assert(end_touches(prefix, v, pre[j]));
        }
        assert forall|j: int| 0 <= j < all.len() implies end_touches(
            edges,
            v,
            #[trigger] all[j],
        ) by {
            if j < pre.len() {
                assert(all[j] == pre[j]);
                assert(end_touches(prefix, v, pre[j]));
                match pre[j] {
                    EdgeEnd::First(i) => {
                        assert(prefix[i as int] == edges[i as int]);
                    },
                    EdgeEnd::Second(i) => {
                        assert(prefix[i as int] == edges[i as int]);
                    },
                }
            } else if j < pre.len() + a.len() {
                assert(all[j] == a[j - pre.len()]);
            } else {
                assert(all[j] == b[j - pre.len() - a.len()]);
            }
        }
        assert forall|i: int| 0 <= i < edges.len() && #[trigger] edges[i].vert_idx1 == v implies all.contains(
            EdgeEnd::First(i as usize),
        ) by {
            if i < last {
                assert(prefix[i] == edges[i]);
                assert(prefix[i].vert_idx1 == v);
                let j = choose|j: int| 0 <= j < pre.len() && pre[j] == EdgeEnd::First(i as usize);
                assert(all[j] == pre[j]);
            } else {
                assert(all[pre.len() as int] == EdgeEnd::First(i as usize));
            }
        }
        assert forall|i: int| 0 <= i < edges.len() && #[trigger] edges[i].vert_idx2 == v implies all.contains(
            EdgeEnd::Second(i as usize),
        ) by {
            if i < last {
                assert(prefix[i] == edges[i]);
                assert(prefix[i].vert_idx2 == v);
                let j = choose|j: int| 0 <= j < pre.len() && pre[j] == EdgeEnd::Second(i as usize);
                assert(all[j] == pre[j]);
            } else {
                assert(all[(pre.len() + a.len()) as int] == EdgeEnd::Second(i as usize));
            }
        }
        assert forall|j1: int, j2: int| 0 <= j1 < j2 < all.len() implies end_rank(#[trigger] all[j1])
            < end_rank(#[trigger] all[j2]) by {
            if j2 < pre.len() {
                assert(all[j1] == pre[j1]);
                assert(all[j2] == pre[j2]);
            } else if j1 < pre.len() {
                assert(all[j1] == pre[j1]);
                if j2 < pre.len() + a.len() {
                    assert(all[j2] == a[j2 - pre.len()]);
                } else {
                    assert(all[j2] == b[j2 - pre.len() - a.len()]);
                }
            } else {
                assert(j1 == pre.len() && a.len() == 1 && j2 == pre.len() + 1);
                assert(all[j1] == a[0]);
                assert(all[j2] == b[0]);
            }
        }
        assert forall|j1: int, j2: int| 0 <= j1 < j2 < all.len() implies #[trigger] all[j1]
            != #[trigger] all[j2] by {
            if j2 < pre.len() {
                assert(all[j1] == pre[j1]);
                assert(all[j2] == pre[j2]);
            } else if j1 < pre.len() {
                assert(all[j1] == pre[j1]);
                if j2 < pre.len() + a.len() {
                    assert(all[j2] == a[j2 - pre.len()]);
                } else {
                    assert(all[j2] == b[j2 - pre.len() - a.len()]);
                }
            } else {
                assert(j1 == pre.len() && a.len() == 1 && j2 == pre.len() + 1);
                assert(all[j1] == a[0]);
                assert(all[j2] == b[0]);
            }
        }
    }
}

/// The vertices listed with `d` edge ends are exactly the vertices among
/// the first `n` whose degree is `d`, in strictly increasing order.
pub proof fn law_verts_of_degree_exact(edges: Seq<Edge>, n: nat, d: nat)
    requires
        n <= usize::MAX + 1,
    ensures
        forall|x: usize|
            verts_of_degree(edges, n, d).contains(x) <==> (x < n && degree(edges, x as int) == d),
        forall|j1: int, j2: int|
            0 <= j1 < j2 < verts_of_degree(edges, n, d).len() ==> #[trigger] verts_of_degree(
                edges,
                n,
                d,
            )[j1] < #[trigger] verts_of_degree(edges, n, d)[j2],
        forall|j: int|
            0 <= j < verts_of_degree(edges, n, d).len() ==> #[trigger] verts_of_degree(
                edges,
                n,
                d,
            )[j] < n,
    decreases n,
{
    if n > 0 {
        let m = (n - 1) as nat;
        let pre = verts_of_degree(edges, m, d);
        let all = verts_of_degree(edges, n, d);
        law_verts_of_degree_exact(edges, m, d);
        let tail = if degree(edges, m as int) == d {
            seq![m as usize]
        } else {
            Seq::<usize>::empty()
        };
        assert(all == pre + tail);
        assert forall|x: usize| all.contains(x) <==> (x < n && degree(edges, x as int) == d) by {
            if all.contains(x) {
                let j = choose|j: int| 0 <= j < all.len() && all[j] == x;
                if j < pre.len() {
                    assert(pre[j] == x);
                    assert(pre.contains(x));
                } else {
                    assert(tail[j - pre.len()] == x);
                }
            }
            if x < n && degree(edges, x as int) == d {
                if x < m {
                    assert(pre.contains(x));
                    let j = choose|j: int| 0 <= j < pre.len() && pre[j] == x;
                    assert(all[j] == pre[j]);
                } else {
                    assert(all[pre.len() as int] == x);
                }
            }
        }
        assert forall|j: int| 0 <= j < all.len() implies #[trigger] all[j] < n by {
            if j < pre.len() {
                assert(all[j] == pre[j]);
            }
        }
        assert forall|j1: int, j2: int| 0 <= j1 < j2 < all.len() implies #[trigger] all[j1]
            < #[trigger] all[j2] by {
            assert(all[j1] == pre[j1]);
            if j2 < pre.len() {
                assert(all[j2] == pre[j2]);
            } else {
                assert(pre[j1] < m);
            }
        }
    }
}

} // verus!
