use vstd::prelude::*;

use crate::graph::{self, Edge, EdgeEnd};
use crate::labels::{self, vertex_label};
use crate::windows::{self, consecutive_pairs};

verus! {

/// A vertex label and the vertex it belongs to: vertex `vert_idx` as
/// placed by symmetry `symmetry_idx`.
#[derive(Clone, Debug)]
pub struct VertexText {
    pub text: String,
    pub symmetry_idx: usize,
    pub vert_idx: usize,
}

/// Position of row `row`, column `col` in a row-major grid `width` wide.
pub open spec fn grid_index(row: int, col: int, width: int) -> int {
    row * width + col
}

/// Earlier rows of a row-major grid come first.
proof fn lemma_grid_index(row: int, col: int, row2: int, col2: int, width: int)
    requires
        0 <= row,
        0 <= row2,
        0 <= col < width,
        0 <= col2 < width,
        row < row2 || (row == row2 && col < col2),
    ensures
        grid_index(row, col, width) < grid_index(row2, col2, width),
        0 <= grid_index(row, col, width),
{
    assert(row < row2 ==> row * width + width <= row2 * width) by (nonlinear_arith)
        requires
            0 <= row,
            width > 0,
    ;
    assert(0 <= row * width) by (nonlinear_arith)
        requires
            0 <= row,
            width > 0,
    ;
}

/// A model of a polyhedron with rotational symmetry: the vertex positions
/// of one copy, the edges between them, and the rotations (with their
/// inverses) that place the copies.
///
/// Positions and rotations are opaque to the library: it keeps them, in
/// order, and decides which vertices and edges exist.
#[derive(Clone, Debug)]
pub struct Model<P, M> {
    verts: Vec<P>,
    edges: Vec<Edge>,
    symmetries: Vec<M>,
    inverse_symmetries: Vec<M>,
}

impl<P, M> Model<P, M> {
    /// The vertex positions of the base copy.
    pub closed spec fn vert_seq(&self) -> Seq<P> {
        self.verts@
    }

    /// The edges, in the order they were added.
    pub closed spec fn edge_seq(&self) -> Seq<Edge> {
        self.edges@
    }

    /// The rotations that place the copies; the first is the base copy's.
    pub closed spec fn symmetry_seq(&self) -> Seq<M> {
        self.symmetries@
    }

    /// The inverse of each rotation, in the same order.
    pub closed spec fn inverse_symmetry_seq(&self) -> Seq<M> {
        self.inverse_symmetries@
    }

    /// Every edge joins existing vertices, and each rotation has its inverse.
    pub open spec fn wf(&self) -> bool {
        &&& graph::edges_within(self.edge_seq(), self.vert_seq().len())
        &&& self.symmetry_seq().len() == self.inverse_symmetry_seq().len()
    }

    /// Every edge names an existing rotation.
    pub open spec fn symmetries_valid(&self) -> bool {
        graph::symmetries_within(self.edge_seq(), self.symmetry_seq().len())
    }

    /// The model of one copy of a regular polygon with `n` sides, split into
    /// `symmetry_factor` rotated copies.
    ///
    /// `verts` are the positions of the `n / symmetry_factor` vertices of the
    /// base copy; `symmetries` the `symmetry_factor` rotations and
    /// `inverse_symmetries` their inverses.  The edges chain the copy's
    /// vertices and join its last vertex to the first one of the next copy.
    pub fn polygon(
        n: usize,
        symmetry_factor: usize,
        verts: Vec<P>,
        symmetries: Vec<M>,
        inverse_symmetries: Vec<M>,
    ) -> (model: Self)
        requires
            symmetry_factor > 0,
            n % symmetry_factor == 0,
            n > 0,
            verts@.len() == n / symmetry_factor,
            symmetries@.len() == symmetry_factor,
            inverse_symmetries@.len() == symmetry_factor,
        ensures
            model.wf(),
            model.symmetries_valid() <==> symmetry_factor >= 2,
            model.vert_seq() == verts@,
            model.edge_seq() == graph::polygon_edges((n / symmetry_factor) as nat),
            model.edge_seq().len() == n / symmetry_factor,
            forall|i: int|
                0 <= i < n / symmetry_factor - 1 ==> #[trigger] model.edge_seq()[i] == (Edge {
                    vert_idx1: i as usize,
                    vert_idx2: (i + 1) as usize,
                    symmetry_idx2: 0,
                }),
            model.edge_seq()[n / symmetry_factor - 1] == (Edge {
                vert_idx1: (n / symmetry_factor - 1) as usize,
                vert_idx2: 0,
                symmetry_idx2: 1,
            }),
            model.symmetry_seq() == symmetries@,
            model.inverse_symmetry_seq() == inverse_symmetries@,
    {
        assert(n / symmetry_factor > 0) by (nonlinear_arith)
            requires
                symmetry_factor > 0,
                n % symmetry_factor == 0,
                n > 0,
        ;
        let verts_per_symmetry = n / symmetry_factor;
        let pairs = consecutive_pairs(verts_per_symmetry);
        let mut edges: Vec<Edge> = Vec::new();
        let mut i: usize = 0;
        while i < pairs.len()
            invariant
                pairs@ == windows::consecutive_pairs_spec(verts_per_symmetry as nat),
                verts_per_symmetry > 0,
                i <= pairs.len(),
                edges@ == graph::chain_edges(0, i as nat),
            decreases pairs.len() - i,
        {
            let (a, b) = pairs[i];
            edges.push(Edge { vert_idx1: a, vert_idx2: b, symmetry_idx2: 0 });
            i = i + 1;
            assert(edges@ =~= graph::chain_edges(0, i as nat));
        }
        edges.push(Edge { vert_idx1: verts_per_symmetry - 1, vert_idx2: 0, symmetry_idx2: 1 });
        let model = Model { verts, edges, symmetries, inverse_symmetries };
        assert(model.edge_seq() =~= graph::polygon_edges(verts_per_symmetry as nat));
        assert(model.edge_seq()[model.edge_seq().len() - 1].symmetry_idx2 == 1);
        proof {
            graph::law_polygon_edges_explicit(verts_per_symmetry as nat);
        }
        model
    }

    /// Adds a regular polygon with `n` sides that continues the path of
    /// existing vertices `verts` (at least two of them): the `n - verts.len()`
    /// new vertices, at the positions `new_verts`, are chained in order and
    /// joined to the first and the last vertex of `verts`.
    pub fn add_polygon(&mut self, n: usize, verts: &[usize], new_verts: Vec<P>)
        requires
            old(self).wf(),
            verts@.len() >= 2,
            n > verts@.len(),
            verts@[0] < old(self).vert_seq().len(),
            verts@.last() < old(self).vert_seq().len(),
            new_verts@.len() == n - verts@.len(),
            old(self).vert_seq().len() + new_verts@.len() <= usize::MAX,
        ensures
            final(self).wf(),
            old(self).symmetries_valid() && old(self).symmetry_seq().len() > 0
                ==> final(self).symmetries_valid(),
            final(self).vert_seq() == old(self).vert_seq() + new_verts@,
            final(self).edge_seq() == old(self).edge_seq() + graph::extension_edges(
                old(self).vert_seq().len(),
                new_verts@.len(),
                verts@[0],
                verts@.last(),
            ),
            final(self).edge_seq().len() == old(self).edge_seq().len() + new_verts@.len() + 1,
            forall|j: int|
                0 <= j < old(self).edge_seq().len() ==> #[trigger] final(self).edge_seq()[j]
                    == old(self).edge_seq()[j],
            forall|j: int|
                old(self).edge_seq().len() <= j < old(self).edge_seq().len() + new_verts@.len()
                    - 1 ==> #[trigger] final(self).edge_seq()[j] == (Edge {
                    vert_idx1: (old(self).vert_seq().len() + j - old(self).edge_seq().len()) as usize,
                    vert_idx2: (old(self).vert_seq().len() + j - old(self).edge_seq().len()
                        + 1) as usize,
                    symmetry_idx2: 0,
                }),
            final(self).edge_seq()[old(self).edge_seq().len() + new_verts@.len() - 1] == (Edge {
                vert_idx1: verts@[0],
                vert_idx2: old(self).vert_seq().len() as usize,
                symmetry_idx2: 0,
            }),
            final(self).edge_seq()[old(self).edge_seq().len() + new_verts@.len() as int] == (Edge {
                vert_idx1: verts@[verts@.len() - 1],
                vert_idx2: (old(self).vert_seq().len() + new_verts@.len() - 1) as usize,
                symmetry_idx2: 0,
            }),
            final(self).symmetry_seq() == old(self).symmetry_seq(),
            final(self).inverse_symmetry_seq() == old(self).inverse_symmetry_seq(),
            forall|v: int|
                #[trigger] graph::degree(final(self).edge_seq(), v) == graph::degree(
                    old(self).edge_seq(),
                    v,
                ) + (if v == verts@[0] {
                    1nat
                } else {
                    0nat
                }) + (if v == verts@.last() {
                    1nat
                } else {
                    0nat
                }) + (if old(self).vert_seq().len() <= v < final(self).vert_seq().len() {
                    2nat
                } else {
                    0nat
                }),
    {
        let first = verts[0];
        let last = verts[verts.len() - 1];
        let num_new_verts = n - verts.len();
        let base = self.verts.len();
        let ghost old_edges = self.edges@;
        let ghost old_verts = self.verts@;
        let ghost added_verts = new_verts@;
        let mut new_verts = new_verts;
        self.verts.append(&mut new_verts);
        let pairs = consecutive_pairs(num_new_verts);
        let mut i: usize = 0;
        while i < pairs.len()
            invariant
                pairs@ == windows::consecutive_pairs_spec(num_new_verts as nat),
                num_new_verts >= 1,
                base + num_new_verts <= usize::MAX,
                i <= pairs.len(),
                self.edges@ == old_edges + graph::chain_edges(base as nat, i as nat),
                self.verts@ == old_verts + added_verts,
                added_verts.len() == num_new_verts,
                old_verts.len() == base,
                self.symmetries@ == old(self).symmetries@,
                self.inverse_symmetries@ == old(self).inverse_symmetries@,
            decreases pairs.len() - i,
        {
            let (a, b) = pairs[i];
            self.edges.push(Edge { vert_idx1: base + a, vert_idx2: base + b, symmetry_idx2: 0 });
            i = i + 1;
            assert(self.edges@ =~= old_edges + graph::chain_edges(base as nat, i as nat));
        }
        self.edges.push(Edge { vert_idx1: first, vert_idx2: base, symmetry_idx2: 0 });
        self.edges.push(
            Edge { vert_idx1: last, vert_idx2: base + num_new_verts - 1, symmetry_idx2: 0 },
        );
        let ghost ext = graph::extension_edges(
            base as nat,
            num_new_verts as nat,
            first,
            last,
        );
        assert(self.edges@ =~= old_edges + ext);
        proof {
            graph::law_extension_edges_explicit(base as nat, num_new_verts as nat, first, last);
            assert forall|j: int| 0 <= j < ext.len() implies #[trigger] self.edges@[old_edges.len()
                + j] == ext[j] by {}
            assert forall|j: int|
                old_edges.len() <= j < old_edges.len() + num_new_verts - 1 implies #[trigger] self.edges@[j]
                == (Edge {
                vert_idx1: (base + j - old_edges.len()) as usize,
                vert_idx2: (base + j - old_edges.len() + 1) as usize,
                symmetry_idx2: 0,
            }) by {
                assert(self.edges@[j] == ext[j - old_edges.len()]);
            }
            assert(self.edges@[old_edges.len() + num_new_verts - 1] == ext[num_new_verts - 1]);
            assert(self.edges@[old_edges.len() + num_new_verts] == ext[num_new_verts as int]);
        }
        proof {
            assert forall|v: int| #[trigger]
                graph::degree(self.edges@, v) == graph::degree(old_edges, v) + (if v == first {
                    1nat
                } else {
                    0nat
                }) + (if v == last {
                    1nat
                } else {
                    0nat
                }) + (if base <= v < self.verts@.len() {
                    2nat
                } else {
                    0nat
                }) by {
                graph::lemma_degree_concat(old_edges, ext, v);
                graph::law_extension_degrees(base as nat, num_new_verts as nat, first, last, v);
                assert(self.verts@.len() == base + num_new_verts);
                assert(graph::degree(self.edges@, v) == graph::degree(old_edges, v) + graph::degree(ext, v));
            }
            assert forall|i: int| 0 <= i < self.edges@.len() implies
                (#[trigger] self.edges@[i]).vert_idx1 < self.verts@.len()
                && self.edges@[i].vert_idx2 < self.verts@.len()
                && (self.symmetries@.len() > 0 && old(self).symmetries_valid()
                    ==> self.edges@[i].symmetry_idx2 < self.symmetries@.len()) by {
                if i < old_edges.len() {
                    assert(self.edges@[i] == old_edges[i]);
                } else {
                    assert(self.edges@[i] == ext[i - old_edges.len()]);
                }
            }
        }
    }

    /// For each vertex, the ends of the edges that touch it, in edge order:
    /// what the simulation turns into edge directions at that vertex.
    pub fn edge_ends_per_vert(&self) -> (ends: Vec<Vec<EdgeEnd>>)
        requires
            self.wf(),
            self.symmetries_valid(),
        ensures
            ends@.len() == self.vert_seq().len(),
            forall|v: int|
                0 <= v < ends@.len() ==> (#[trigger] ends@[v])@ == graph::ends_at(
                    self.edge_seq(),
                    v,
                ),
            forall|v: int, j: int|
                0 <= v < ends@.len() && 0 <= j < ends@[v]@.len() ==> graph::end_touches(
                    self.edge_seq(),
                    v,
                    #[trigger] ends@[v]@[j],
                ),
            forall|i: int|
                0 <= i < self.edge_seq().len() ==> ends@[(#[trigger] self.edge_seq()[i]).vert_idx1 as int]@.contains(
                    EdgeEnd::First(i as usize),
                ),
            forall|i: int|
                0 <= i < self.edge_seq().len() ==> ends@[(#[trigger] self.edge_seq()[i]).vert_idx2 as int]@.contains(
                    EdgeEnd::Second(i as usize),
                ),
            forall|v: int, j1: int, j2: int|
                0 <= v < ends@.len() && 0 <= j1 < j2 < ends@[v]@.len() ==> #[trigger] ends@[v]@[j1]
                    != #[trigger] ends@[v]@[j2],
            forall|v: int, j1: int, j2: int|
                0 <= v < ends@.len() && 0 <= j1 < j2 < ends@[v]@.len() ==> graph::end_rank(
                    #[trigger] ends@[v]@[j1],
                ) < graph::end_rank(#[trigger] ends@[v]@[j2]),
    {
        let n = self.verts.len();
        let mut ends: Vec<Vec<EdgeEnd>> = Vec::new();
        let mut v: usize = 0;
        while v < n
            invariant
                v <= n,
                ends@.len() == v,
                forall|u: int| 0 <= u < v ==> (#[trigger] ends@[u])@ == Seq::<EdgeEnd>::empty(),
            decreases n - v,
        {
            ends.push(Vec::new());
            v = v + 1;
        }
        let mut e: usize = 0;
        while e < self.edges.len()
            invariant
                self.wf(),
                n == self.verts@.len(),
                e <= self.edges@.len(),
                ends@.len() == n,
                forall|u: int|
                    0 <= u < n ==> (#[trigger] ends@[u])@ == graph::ends_at(
                        self.edges@.take(e as int),
                        u,
                    ),
            decreases self.edges@.len() - e,
        {
            let edge = self.edges[e];
            assert(self.edges@[e as int] == edge);
            let ghost before = ends@;
            ends[edge.vert_idx1].push(EdgeEnd::First(e));
            ends[edge.vert_idx2].push(EdgeEnd::Second(e));
            let ghost prefix = self.edges@.take(e as int);
            assert(self.edges@.take(e + 1).drop_last() =~= prefix);
            assert(self.edges@.take(e + 1)[e as int] == edge);
            assert forall|u: int| 0 <= u < n implies (#[trigger] ends@[u])@ == graph::ends_at(
                self.edges@.take(e + 1),
                u,
            ) by {
                let a = if edge.vert_idx1 == u {
                    seq![EdgeEnd::First(e)]
                } else {
                    Seq::empty()
                };
                let b = if edge.vert_idx2 == u {
                    seq![EdgeEnd::Second(e)]
                } else {
                    Seq::empty()
                };
                assert(ends@[u]@ =~= before[u]@ + a + b);
            }
            e = e + 1;
        }
        assert(self.edges@.take(self.edges@.len() as int) =~= self.edges@);
        proof {
            assert forall|v: int, j: int| 0 <= v < n && 0 <= j < ends@[v]@.len() implies graph::end_touches(
                self.edges@,
                v,
                #[trigger] ends@[v]@[j],
            ) by {
                graph::law_ends_at_exact(self.edges@, v);
                assert(ends@[v]@ == graph::ends_at(self.edges@, v));
            }
            assert forall|v: int, j1: int, j2: int|
                0 <= v < n && 0 <= j1 < j2 < ends@[v]@.len() implies #[trigger] ends@[v]@[j1]
                != #[trigger] ends@[v]@[j2] by {
                graph::law_ends_at_exact(self.edges@, v);
                assert(ends@[v]@ == graph::ends_at(self.edges@, v));
            }
            assert forall|v: int, j1: int, j2: int|
                0 <= v < n && 0 <= j1 < j2 < ends@[v]@.len() implies graph::end_rank(
                #[trigger] ends@[v]@[j1],
            ) < graph::end_rank(#[trigger] ends@[v]@[j2]) by {
                graph::law_ends_at_exact(self.edges@, v);
                assert(ends@[v]@ == graph::ends_at(self.edges@, v));
            }
            assert forall|i: int| 0 <= i < self.edges@.len() implies ends@[(#[trigger] self.edges@[i]).vert_idx1 as int]@.contains(
                EdgeEnd::First(i as usize),
            ) by {
                let v = self.edges@[i].vert_idx1 as int;
                graph::law_ends_at_exact(self.edges@, v);
                assert(ends@[v]@ == graph::ends_at(self.edges@, v));
            }
            assert forall|i: int| 0 <= i < self.edges@.len() implies ends@[(#[trigger] self.edges@[i]).vert_idx2 as int]@.contains(
                EdgeEnd::Second(i as usize),
            ) by {
                let v = self.edges@[i].vert_idx2 as int;
                graph::law_ends_at_exact(self.edges@, v);
                assert(ends@[v]@ == graph::ends_at(self.edges@, v));
            }
        }
        ends
    }

    /// The vertices that touch exactly two edge ends, in increasing order,
    /// each with its two ends: the vertices that
    /// `ensure_all_verts_have_three_edges` gives a third edge.
    pub fn verts_with_two_edges(&self) -> (requests: Vec<(usize, EdgeEnd, EdgeEnd)>)
        requires
            self.wf(),
            self.symmetries_valid(),
        ensures
            requests@ == graph::two_edge_verts(self.edge_seq(), self.vert_seq().len()).map_values(
                |v: usize| graph::spur_request(self.edge_seq(), v),
            ),
            forall|j: int|
                0 <= j < requests@.len() ==> {
                    let r = #[trigger] requests@[j];
                    &&& r.0 < self.vert_seq().len()
                    &&& graph::degree(self.edge_seq(), r.0 as int) == 2
                    &&& graph::end_touches(self.edge_seq(), r.0 as int, r.1)
                    &&& graph::end_touches(self.edge_seq(), r.0 as int, r.2)
                    &&& r.1 != r.2
                },
            forall|x: usize|
                x < self.vert_seq().len() && graph::degree(self.edge_seq(), x as int) == 2
                    ==> exists|j: int| 0 <= j < requests@.len() && (#[trigger] requests@[j]).0 == x,
            forall|j1: int, j2: int|
                0 <= j1 < j2 < requests@.len() ==> (#[trigger] requests@[j1]).0 < (
                #[trigger] requests@[j2]).0,
    {
        let ends = self.edge_ends_per_vert();
        let n = self.verts.len();
        let ghost edges = self.edges@;
        let mut requests: Vec<(usize, EdgeEnd, EdgeEnd)> = Vec::new();
        let mut v: usize = 0;
        while v < n
            invariant
                v <= n,
                n == self.verts@.len(),
                edges == self.edges@,
                ends@.len() == n,
                forall|u: int| 0 <= u < n ==> (#[trigger] ends@[u])@ == graph::ends_at(edges, u),
                requests@ == graph::two_edge_verts(edges, v as nat).map_values(
                    |u: usize| graph::spur_request(edges, u),
                ),
            decreases n - v,
        {
            proof {
                graph::lemma_ends_len(edges, v as int);
            }
            assert(ends@[v as int]@ == graph::ends_at(edges, v as int));
            if ends[v].len() == 2 {
                let request = (v, ends[v][0], ends[v][1]);
                requests.push(request);
            }
            v = v + 1;
            assert(requests@ =~= graph::two_edge_verts(edges, v as nat).map_values(
                |u: usize| graph::spur_request(edges, u),
            ));
        }
        let num_edges = self.edges.len();
        proof {
            assert(edges.len() == num_edges);
            let tv = graph::two_edge_verts(edges, n as nat);
            graph::law_verts_of_degree_exact(edges, n as nat, 2);
            assert forall|j: int| 0 <= j < requests@.len() implies {
                let r = #[trigger] requests@[j];
                &&& r.0 < n
                &&& graph::degree(edges, r.0 as int) == 2
                &&& graph::end_touches(edges, r.0 as int, r.1)
                &&& graph::end_touches(edges, r.0 as int, r.2)
                &&& r.1 != r.2
            } by {
                let v = tv[j];
                assert(requests@[j] == graph::spur_request(edges, v));
                assert(tv.contains(v));
                graph::law_ends_at_exact(edges, v as int);
                graph::lemma_ends_len(edges, v as int);
                assert(graph::ends_at(edges, v as int)[0] != graph::ends_at(edges, v as int)[1]);
            }
            assert forall|x: usize|
                x < n && graph::degree(edges, x as int) == 2 implies exists|j: int|
                0 <= j < requests@.len() && (#[trigger] requests@[j]).0 == x by {
                assert(tv.contains(x));
                let j = choose|j: int| 0 <= j < tv.len() && tv[j] == x;
                assert(requests@[j].0 == x);
            }
            assert forall|j1: int, j2: int| 0 <= j1 < j2 < requests@.len() implies (
            #[trigger] requests@[j1]).0 < (#[trigger] requests@[j2]).0 by {
                assert(requests@[j1].0 == tv[j1]);
                assert(requests@[j2].0 == tv[j2]);
            }
        }
        requests
    }

    /// The vertices that touch exactly `count` edge ends, in increasing
    /// order: with three, the vertices whose edges the simulation pulls
    /// towards even angles.
    pub fn verts_with_edge_count(&self, count: usize) -> (verts: Vec<usize>)
        requires
            self.wf(),
            self.symmetries_valid(),
        ensures
            verts@ == graph::verts_of_degree(
                self.edge_seq(),
                self.vert_seq().len(),
                count as nat,
            ),
            forall|x: usize|
                verts@.contains(x) <==> (x < self.vert_seq().len() && graph::degree(
                    self.edge_seq(),
                    x as int,
                ) == count),
            forall|j1: int, j2: int|
                0 <= j1 < j2 < verts@.len() ==> #[trigger] verts@[j1] < #[trigger] verts@[j2],
    {
        let ends = self.edge_ends_per_vert();
        let n = self.verts.len();
        let ghost edges = self.edges@;
        let mut verts: Vec<usize> = Vec::new();
        let mut v: usize = 0;
        while v < n
            invariant
                v <= n,
                n == self.verts@.len(),
                edges == self.edges@,
                ends@.len() == n,
                forall|u: int| 0 <= u < n ==> (#[trigger] ends@[u])@ == graph::ends_at(edges, u),
                verts@ == graph::verts_of_degree(edges, v as nat, count as nat),
            decreases n - v,
        {
            proof {
                graph::lemma_ends_len(edges, v as int);
            }
            assert(ends@[v as int]@ == graph::ends_at(edges, v as int));
            if ends[v].len() == count {
                verts.push(v);
            }
            v = v + 1;
            assert(verts@ =~= graph::verts_of_degree(edges, v as nat, count as nat));
        }
        proof {
            graph::law_verts_of_degree_exact(edges, n as nat, count as nat);
        }
        verts
    }

    /// Gives every vertex that touches exactly two edge ends a third edge,
    /// to a new vertex of its own: the `j`-th such vertex (in increasing
    /// order) is joined to the new vertex at position `new_verts[j]`.
    pub fn ensure_all_verts_have_three_edges(&mut self, new_verts: Vec<P>)
        requires
            old(self).wf(),
            old(self).symmetries_valid(),
            new_verts@.len() == graph::two_edge_verts(
                old(self).edge_seq(),
                old(self).vert_seq().len(),
            ).len(),
            old(self).vert_seq().len() + new_verts@.len() <= usize::MAX,
        ensures
            final(self).wf(),
            old(self).symmetry_seq().len() > 0 ==> final(self).symmetries_valid(),
            final(self).vert_seq() == old(self).vert_seq() + new_verts@,
            final(self).edge_seq() == old(self).edge_seq() + graph::spur_edges(
                graph::two_edge_verts(old(self).edge_seq(), old(self).vert_seq().len()),
                old(self).vert_seq().len(),
            ),
            final(self).symmetry_seq() == old(self).symmetry_seq(),
            final(self).inverse_symmetry_seq() == old(self).inverse_symmetry_seq(),
            forall|v: int|
                0 <= v < old(self).vert_seq().len() ==> #[trigger] graph::degree(
                    final(self).edge_seq(),
                    v,
                ) == if graph::degree(old(self).edge_seq(), v) == 2 {
                    3
                } else {
                    graph::degree(old(self).edge_seq(), v)
                },
            forall|v: int|
                old(self).vert_seq().len() <= v < final(self).vert_seq().len()
                    ==> #[trigger] graph::degree(final(self).edge_seq(), v) == 1,
            graph::two_edge_verts(final(self).edge_seq(), final(self).vert_seq().len())
                == Seq::<usize>::empty(),
            final(self).edge_seq().len() == old(self).edge_seq().len() + new_verts@.len(),
            forall|j: int|
                0 <= j < old(self).edge_seq().len() ==> #[trigger] final(self).edge_seq()[j]
                    == old(self).edge_seq()[j],
            forall|j: int|
                old(self).edge_seq().len() <= j < final(self).edge_seq().len() ==> {
                    let e = #[trigger] final(self).edge_seq()[j];
                    &&& e.vert_idx2 == old(self).vert_seq().len() + j - old(self).edge_seq().len()
                    &&& e.symmetry_idx2 == 0
                    &&& e.vert_idx1 < old(self).vert_seq().len()
                    &&& graph::degree(old(self).edge_seq(), e.vert_idx1 as int) == 2
                },
            forall|x: usize|
                x < old(self).vert_seq().len() && graph::degree(old(self).edge_seq(), x as int) == 2
                    ==> exists|j: int|
                    old(self).edge_seq().len() <= j < final(self).edge_seq().len() && (
                    #[trigger] final(self).edge_seq()[j]).vert_idx1 == x,
            forall|j1: int, j2: int|
                old(self).edge_seq().len() <= j1 < j2 < final(self).edge_seq().len() ==> (
                #[trigger] final(self).edge_seq()[j1]).vert_idx1 < (
                #[trigger] final(self).edge_seq()[j2]).vert_idx1,
    {
        let ends = self.edge_ends_per_vert();
        let n = self.verts.len();
        let ghost old_edges = self.edges@;
        let ghost old_verts = self.verts@;
        let ghost added_verts = new_verts@;
        let ghost k = added_verts.len();
        proof {
            graph::lemma_two_edge_verts_len(old_edges, n as nat, n as nat);
        }
        let mut added: usize = 0;
        let mut v: usize = 0;
        while v < n
            invariant
                v <= n,
                n == old_verts.len(),
                self.verts@ == old_verts,
                self.symmetries@ == old(self).symmetries@,
                self.inverse_symmetries@ == old(self).inverse_symmetries@,
                ends@.len() == n,
                forall|u: int|
                    0 <= u < n ==> (#[trigger] ends@[u])@ == graph::ends_at(old_edges, u),
                k == graph::two_edge_verts(old_edges, n as nat).len(),
                n + k <= usize::MAX,
                added == graph::two_edge_verts(old_edges, v as nat).len(),
                self.edges@ == old_edges + graph::spur_edges(
                    graph::two_edge_verts(old_edges, v as nat),
                    n as nat,
                ),
            decreases n - v,
        {
            proof {
                graph::lemma_ends_len(old_edges, v as int);
                graph::lemma_two_edge_verts_len(old_edges, (v + 1) as nat, n as nat);
            }
            assert(ends@[v as int]@ == graph::ends_at(old_edges, v as int));
            let ghost prev = graph::two_edge_verts(old_edges, v as nat);
            if ends[v].len() == 2 {
                self.edges.push(Edge { vert_idx1: v, vert_idx2: n + added, symmetry_idx2: 0 });
                added = added + 1;
                assert(graph::spur_edges(graph::two_edge_verts(old_edges, (v + 1) as nat), n as nat)
                    =~= graph::spur_edges(prev, n as nat).push(
                    Edge { vert_idx1: v, vert_idx2: (n + prev.len()) as usize, symmetry_idx2: 0 },
                ));
            } else {
                assert(graph::two_edge_verts(old_edges, (v + 1) as nat) =~= prev);
            }
            v = v + 1;
        }
        let mut new_verts = new_verts;
        self.verts.append(&mut new_verts);
        proof {
            let tv = graph::two_edge_verts(old_edges, n as nat);
            let spurs = graph::spur_edges(tv, n as nat);
            graph::law_spurs_leave_no_two_edge_vertex(old_edges, n as nat);
            graph::law_verts_of_degree_exact(old_edges, n as nat, 2);
            let ne = old_edges.len();
            assert(self.edges@ == old_edges + spurs);
            assert forall|j: int| 0 <= j < ne implies #[trigger] self.edges@[j] == old_edges[j] by {}
            assert forall|j: int| ne <= j < self.edges@.len() implies {
                let e = #[trigger] self.edges@[j];
                &&& e.vert_idx2 == n + j - ne
                &&& e.symmetry_idx2 == 0
                &&& e.vert_idx1 < n
                &&& graph::degree(old_edges, e.vert_idx1 as int) == 2
            } by {
                assert(self.edges@[j] == spurs[j - ne]);
                assert(tv.contains(tv[j - ne]));
            }
            assert forall|x: usize| x < n && graph::degree(old_edges, x as int) == 2 implies exists|j: int|
                ne <= j < self.edges@.len() && (#[trigger] self.edges@[j]).vert_idx1 == x by {
                assert(tv.contains(x));
                let i = choose|i: int| 0 <= i < tv.len() && tv[i] == x;
                assert(self.edges@[ne + i] == spurs[i]);
            }
            assert forall|j1: int, j2: int| ne <= j1 < j2 < self.edges@.len() implies (
            #[trigger] self.edges@[j1]).vert_idx1 < (#[trigger] self.edges@[j2]).vert_idx1 by {
                assert(self.edges@[j1] == spurs[j1 - ne]);
                assert(self.edges@[j2] == spurs[j2 - ne]);
            }
            assert(self.verts@.len() == n + k);
            assert forall|i: int| 0 <= i < self.edges@.len() implies
                (#[trigger] self.edges@[i]).vert_idx1 < self.verts@.len()
                && self.edges@[i].vert_idx2 < self.verts@.len()
                && (self.symmetries@.len() > 0 && old(self).symmetries_valid()
                    ==> self.edges@[i].symmetry_idx2 < self.symmetries@.len()) by {
                if i < old_edges.len() {
                    assert(self.edges@[i] == old_edges[i]);
                } else {
                    let j = i - old_edges.len();
                    assert(self.edges@[i] == spurs[j]);
                    graph::lemma_two_edge_verts_bound(old_edges, n as nat, j);
                }
            }
        }
    }

    /// A label for every vertex of every symmetric copy: copy by copy, and
    /// within a copy vertex by vertex, the label `"{vert_idx}:{symmetry_idx}"`
    /// with the vertex and the symmetry that places it.
    pub fn vertex_texts(&self) -> (texts: Vec<VertexText>)
        ensures
            texts@.len() == self.symmetry_seq().len() * self.vert_seq().len(),
            forall|s: int, v: int|
                0 <= s < self.symmetry_seq().len() && 0 <= v < self.vert_seq().len() ==> {
                    let t = #[trigger] texts@[grid_index(s, v, self.vert_seq().len() as int)];
                    &&& t.text@ == labels::label_text(v as nat, s as nat)
                    &&& t.symmetry_idx == s
                    &&& t.vert_idx == v
                },
            forall|k: int|
                0 <= k < texts@.len() ==> {
                    let t = #[trigger] texts@[k];
                    &&& t.symmetry_idx < self.symmetry_seq().len()
                    &&& t.vert_idx < self.vert_seq().len()
                    &&& t.symmetry_idx * self.vert_seq().len() + t.vert_idx == k
                    &&& t.text@ == labels::label_text(t.vert_idx as nat, t.symmetry_idx as nat)
                },
    {
        let num_symmetries = self.symmetries.len();
        let num_verts = self.verts.len();
        let ghost width = num_verts as int;
        let mut texts: Vec<VertexText> = Vec::new();
        let mut s: usize = 0;
        while s < num_symmetries
            invariant
                s <= num_symmetries,
                width == num_verts,
                texts@.len() == s * width,
                forall|s2: int, v2: int|
                    0 <= s2 < s && 0 <= v2 < width ==> {
                        let t = #[trigger] texts@[grid_index(s2, v2, width)];
                        &&& t.text@ == labels::label_text(v2 as nat, s2 as nat)
                        &&& t.symmetry_idx == s2
                        &&& t.vert_idx == v2
                    },
            decreases num_symmetries - s,
        {
            let mut v: usize = 0;
            while v < num_verts
                invariant
                    s < num_symmetries,
                    v <= num_verts,
                    width == num_verts,
                    texts@.len() == s * width + v,
                    forall|s2: int, v2: int|
                        (0 <= s2 < s && 0 <= v2 < width) || (s2 == s && 0 <= v2 < v) ==> {
                            let t = #[trigger] texts@[grid_index(s2, v2, width)];
                            &&& t.text@ == labels::label_text(v2 as nat, s2 as nat)
                            &&& t.symmetry_idx == s2
                            &&& t.vert_idx == v2
                        },
                decreases num_verts - v,
            {
                let ghost before = texts@;
                texts.push(VertexText { text: vertex_label(v, s), symmetry_idx: s, vert_idx: v });
                proof {
                    assert forall|s2: int, v2: int|
                        (0 <= s2 < s && 0 <= v2 < width) || (s2 == s && 0 <= v2 < v + 1) implies {
                            let t = #[trigger] texts@[grid_index(s2, v2, width)];
                            &&& t.text@ == labels::label_text(v2 as nat, s2 as nat)
                            &&& t.symmetry_idx == s2
                            &&& t.vert_idx == v2
                        } by {
                        if s2 != s || v2 != v {
                            lemma_grid_index(s2, v2, s as int, v as int, width);
                            assert(texts@[grid_index(s2, v2, width)] == before[grid_index(
                                s2,
                                v2,
                                width,
                            )]);
                        }
                    }
                }
                v = v + 1;
            }
            assert((s + 1) * width == s * width + width) by (nonlinear_arith);
            s = s + 1;
        }
        proof {
            let total = num_symmetries * width;
            assert forall|k: int| 0 <= k < texts@.len() implies {
                let t = #[trigger] texts@[k];
                &&& t.symmetry_idx < num_symmetries
                &&& t.vert_idx < width
                &&& t.symmetry_idx * width + t.vert_idx == k
                &&& t.text@ == labels::label_text(t.vert_idx as nat, t.symmetry_idx as nat)
            } by {
                assert(width > 0) by (nonlinear_arith)
                    requires
                        0 <= k < num_symmetries * width,
                        width >= 0,
                ;
                let s = k / width;
                let v = k % width;
                vstd::arithmetic::div_mod::lemma_fundamental_div_mod(k, width);
                vstd::arithmetic::div_mod::lemma_mod_pos_bound(k, width);
                assert(0 <= s) by (nonlinear_arith)
                    requires
                        0 <= k,
                        width > 0,
                        s == k / width,
                ;
                assert(s < num_symmetries) by (nonlinear_arith)
                    requires
                        k == width * s + v,
                        0 <= v,
                        k < num_symmetries * width,
                        width > 0,
                ;
                assert(grid_index(s, v, width) == k) by (nonlinear_arith)
                    requires
                        k == width * s + v,
                ;
            }
        }
        texts
    }

    /// The number of vertices of the base copy.
    pub fn vert_count(&self) -> (count: usize)
        ensures
            count == self.vert_seq().len(),
    {
        self.verts.len()
    }

    /// The position of vertex `i` of the base copy.
    pub fn vert(&self, i: usize) -> (p: &P)
        requires
            i < self.vert_seq().len(),
        ensures
            *p == self.vert_seq()[i as int],
    {
        &self.verts[i]
    }

    /// Moves vertex `i` of the base copy to `p`; nothing else changes.
    pub fn set_vert(&mut self, i: usize, p: P)
        requires
            i < old(self).vert_seq().len(),
        ensures
            final(self).vert_seq() == old(self).vert_seq().update(i as int, p),
            final(self).edge_seq() == old(self).edge_seq(),
            final(self).symmetry_seq() == old(self).symmetry_seq(),
            final(self).inverse_symmetry_seq() == old(self).inverse_symmetry_seq(),
    {
        self.verts.set(i, p);
    }

    /// The number of edges.
    pub fn edge_count(&self) -> (count: usize)
        ensures
            count == self.edge_seq().len(),
    {
        self.edges.len()
    }

    /// Edge `i`.
    pub fn edge(&self, i: usize) -> (e: Edge)
        requires
            i < self.edge_seq().len(),
        ensures
            e == self.edge_seq()[i as int],
    {
        self.edges[i]
    }

    /// The number of symmetric copies.
    pub fn symmetry_count(&self) -> (count: usize)
        ensures
            count == self.symmetry_seq().len(),
    {
        self.symmetries.len()
    }

    /// The rotation that places copy `i`.
    pub fn symmetry(&self, i: usize) -> (m: &M)
        requires
            i < self.symmetry_seq().len(),
        ensures
            *m == self.symmetry_seq()[i as int],
    {
        &self.symmetries[i]
    }

    /// The inverse of the rotation that places copy `i`.
    pub fn inverse_symmetry(&self, i: usize) -> (m: &M)
        requires
            i < self.inverse_symmetry_seq().len(),
        ensures
            *m == self.inverse_symmetry_seq()[i as int],
    {
        &self.inverse_symmetries[i]
    }
}

impl<P, M> Default for Model<P, M> {
    /// The empty model: no vertices, no edges, no symmetries.
    fn default() -> (model: Self)
        ensures
            model.wf(),
            model.vert_seq() == Seq::<P>::empty(),
            model.edge_seq() == Seq::<Edge>::empty(),
            model.symmetry_seq() == Seq::<M>::empty(),
            model.inverse_symmetry_seq() == Seq::<M>::empty(),
    {
        Model { verts: Vec::new(), edges: Vec::new(), symmetries: Vec::new(), inverse_symmetries: Vec::new() }
    }
}

} // verus!
