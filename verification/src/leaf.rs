//! The leaf aggregate: the vertex and edge lists, the growth parameters,
//! and the growth-step operations — vein-edge selection, tip elongation,
//! and triangulation-preserving edge splitting.

use vstd::prelude::*;

use crate::mesh::adjacent;
use crate::mesh::apexes_below;
use crate::mesh::connects;
use crate::mesh::is_apex;
use crate::mesh::lemma_apexes_below_membership;
use crate::mesh::Edge;
use crate::mesh::Morphogens;
use crate::mesh::Point;
use crate::mesh::Vertex;

verus! {

/// Growth parameters, fixed at construction for a run. Both are held as
/// 32-bit words read by the driver as single-precision bit patterns:
/// `vein_growth_rate` a positive distance per time unit, and
/// `new_vein_proportion` a fraction in (0, 1) of a split edge's
/// pre-elongation length that becomes the newly inserted segment.
#[derive(Copy, Clone, Debug, PartialEq, Eq, Structural)]
pub struct Parameters {
    pub vein_growth_rate: u32,
    pub new_vein_proportion: u32,
}

/// Raised when triangle lookup finds a face count other than 1 or 2 for
/// an edge: the mesh invariant has been violated and the growth algorithm
/// must not proceed. Carries the offending edge index and the count found.
#[derive(Copy, Clone, Debug, PartialEq, Eq, Structural)]
pub struct TopologyFault {
    pub edge: usize,
    pub found: usize,
}

/// The leaf: an index-addressed, append-only vertex list, a mutable edge
/// list, and the growth parameters.
#[derive(Debug)]
pub struct Leaf {
    pub vertices: Vec<Vertex>,
    pub edges: Vec<Edge>,
    pub parameters: Parameters,
}

/// An edge is eligible for growth iff its endpoints are (Vein, Vein) or
/// (Vein, Convergence): the convergence target, when present, is always
/// the second endpoint — the growing tip.
pub open spec fn is_vein_edge(vs: Seq<Vertex>, e: Edge) -> bool {
    vs[e.a as int].is_vein() && (vs[e.b as int].is_vein() || vs[e.b as int].is_convergence())
}

/// The older vertex list survives as a prefix of the newer one, role for
/// role: the count never decreases, no index is invalidated, and no role
/// tag ever changes (only positions may).
pub open spec fn roles_preserved(pre: Seq<Vertex>, post: Seq<Vertex>) -> bool {
    &&& pre.len() <= post.len()
    &&& forall|i: int| 0 <= i < pre.len() ==> pre[i].same_role(#[trigger] post[i])
}

/// Preserved roles compose: across any sequence of growth steps the
/// vertex count never decreases, no index is invalidated, and no role
/// tag changes.
pub proof fn lemma_roles_preserved_trans(p: Seq<Vertex>, q: Seq<Vertex>, r: Seq<Vertex>)
    requires
        roles_preserved(p, q),
        roles_preserved(q, r),
    ensures
        roles_preserved(p, r),
{
    assert forall|i: int| 0 <= i < p.len() implies p[i].same_role(#[trigger] r[i]) by {
        assert(p[i].same_role(q[i]));
        assert(q[i].same_role(r[i]));
    }
}

/// A phase-A tip move: overwrite the position of vertex `vertex` with
/// `position`, computed by the driver from the edge's pre-step geometry.
#[derive(Copy, Clone, Debug, PartialEq, Eq, Structural)]
pub struct TipMove {
    pub vertex: usize,
    pub position: Point,
}

/// The vertex list after the moves are applied in order. A vertex named
/// by two moves ends at the later move's position: within-step ordering
/// is part of the algorithm's observable behaviour.
pub open spec fn moved_vertices(vs: Seq<Vertex>, moves: Seq<TipMove>) -> Seq<Vertex>
    decreases moves.len(),
{
    if moves.len() == 0 {
        vs
    } else {
        let m = moves[0];
        moved_vertices(
            vs.update(m.vertex as int, vs[m.vertex as int].spec_with_position(m.position)),
            moves.drop_first(),
        )
    }
}

/// Applying tip moves never changes the vertex count or any role tag.
pub proof fn lemma_moved_vertices_roles(vs: Seq<Vertex>, moves: Seq<TipMove>)
    requires
        forall|k: int| 0 <= k < moves.len() ==> (#[trigger] moves[k]).vertex < vs.len(),
    ensures
        moved_vertices(vs, moves).len() == vs.len(),
        roles_preserved(vs, moved_vertices(vs, moves)),
    decreases moves.len(),
{
    if moves.len() > 0 {
        let m = moves[0];
        let vs2 = vs.update(m.vertex as int, vs[m.vertex as int].spec_with_position(m.position));
        assert forall|k: int| 0 <= k < moves.drop_first().len() implies (#[trigger] moves.drop_first()[k]).vertex
            < vs2.len() by {
            assert(moves.drop_first()[k] == moves[k + 1]);
        }
        lemma_moved_vertices_roles(vs2, moves.drop_first());
        assert forall|i: int| 0 <= i < vs.len() implies vs[i].same_role(
            #[trigger] moved_vertices(vs, moves)[i],
        ) by {
            assert(vs[i].same_role(vs2[i]));
            assert(vs2[i].same_role(moved_vertices(vs2, moves.drop_first())[i]));
        }
    }
}

/// Appending one move applies it after the earlier ones.
pub proof fn lemma_moved_vertices_push(vs: Seq<Vertex>, moves: Seq<TipMove>, m: TipMove)
    requires
        forall|k: int| 0 <= k < moves.len() ==> (#[trigger] moves[k]).vertex < vs.len(),
        m.vertex < vs.len(),
    ensures
        moved_vertices(vs, moves.push(m)) == moved_vertices(vs, moves).update(
            m.vertex as int,
            moved_vertices(vs, moves)[m.vertex as int].spec_with_position(m.position),
        ),
    decreases moves.len(),
{
    lemma_moved_vertices_roles(vs, moves);
    if moves.len() == 0 {
        reveal_with_fuel(moved_vertices, 2);
        assert(moves.push(m)[0] == m);
        assert(moves.push(m).drop_first() =~= Seq::<TipMove>::empty());
        assert(moved_vertices(vs, moves.push(m)) == vs.update(
            m.vertex as int,
            vs[m.vertex as int].spec_with_position(m.position),
        ));
        assert(moved_vertices(vs, moves) == vs);
    } else {
        let h = moves[0];
        let vs2 = vs.update(h.vertex as int, vs[h.vertex as int].spec_with_position(h.position));
        assert forall|k: int| 0 <= k < moves.drop_first().len() implies (#[trigger] moves.drop_first()[k]).vertex
            < vs2.len() by {
            assert(moves.drop_first()[k] == moves[k + 1]);
        }
        assert(moves.push(m)[0] == h);
        assert(moves.push(m).drop_first() =~= moves.drop_first().push(m));
        lemma_moved_vertices_push(vs2, moves.drop_first(), m);
        assert(moved_vertices(vs, moves.push(m)) == moved_vertices(
            vs2,
            moves.drop_first().push(m),
        ));
        assert(moved_vertices(vs, moves) == moved_vertices(vs2, moves.drop_first()));
    }
}

/// The re-triangulation edges a split appends: one from the new vertex
/// `nv` to each triangle apex found for the split edge.
pub open spec fn apex_edges(nv: usize, cs: Seq<usize>) -> Seq<Edge>
    decreases cs.len(),
{
    if cs.len() == 0 {
        Seq::empty()
    } else {
        seq![Edge { a: nv, b: cs[0] }] + apex_edges(nv, cs.drop_first())
    }
}

/// The apexes found for edge `e` when the mesh holds `vs_len` vertices.
pub open spec fn split_apexes(vs_len: usize, es: Seq<Edge>, e: int) -> Seq<usize> {
    apexes_below(es, es[e].a, es[e].b, vs_len)
}

/// An edge may be split only while it borders exactly one or two faces.
pub open spec fn split_allowed(vs_len: usize, es: Seq<Edge>, e: int) -> bool {
    1 <= split_apexes(vs_len, es, e).len() <= 2
}

/// The edge list after splitting edge `e` with new vertex index `vs_len`:
/// the apex reconnection edges and the two halves `(a, new)`, `(new, b)`
/// are appended, then the original edge is removed, shifting every later
/// edge's position down by one.
pub open spec fn split_result_edges(vs_len: usize, es: Seq<Edge>, e: int) -> Seq<Edge> {
    es.remove(e) + apex_edges(vs_len, split_apexes(vs_len, es, e)) + seq![
        Edge { a: es[e].a, b: vs_len },
        Edge { a: vs_len, b: es[e].b },
    ]
}

/// A phase-B split candidate: the edge index recorded when the candidate
/// was selected, and the driver-computed position of the new vein vertex.
/// Indices are understood as recorded — splitting renumbers later edges,
/// and stored candidate indices are not renumbered mid-pass.
#[derive(Copy, Clone, Debug, PartialEq, Eq, Structural)]
pub struct SplitCandidate {
    pub edge: usize,
    pub position: Point,
}

/// The mesh after the split candidates are applied in order, each against
/// the mesh as the previous splits left it; `None` when some split finds
/// a face count other than 1 or 2.
pub open spec fn applied_splits(
    vs: Seq<Vertex>,
    es: Seq<Edge>,
    cands: Seq<SplitCandidate>,
) -> Option<(Seq<Vertex>, Seq<Edge>)>
    decreases cands.len(),
{
    if cands.len() == 0 {
        Some((vs, es))
    } else {
        let c = cands[0];
        if c.edge < es.len() && split_allowed(vs.len() as usize, es, c.edge as int) {
            applied_splits(
                vs.push(Vertex::Vein(c.position)),
                split_result_edges(vs.len() as usize, es, c.edge as int),
                cands.drop_first(),
            )
        } else {
            None
        }
    }
}

/// One vein edge's snapshot, taken at the start of a growth step before
/// any mutation of that step: the edge's index, its base and tip vertex
/// indices with their pre-step positions, and whether the tip is a
/// convergence target (making the edge a split candidate).
#[derive(Copy, Clone, Debug, PartialEq, Eq, Structural)]
pub struct VeinGrowth {
    pub edge: usize,
    pub base: usize,
    pub tip: usize,
    pub base_position: Point,
    pub tip_position: Point,
    pub splits: bool,
}

/// The snapshot entry `g` faithfully describes a vein edge of `l`.
pub open spec fn growth_entry_ok(l: Leaf, g: VeinGrowth) -> bool {
    &&& g.edge < l.edges@.len()
    &&& is_vein_edge(l.vertices@, l.edges@[g.edge as int])
    &&& g.base == l.edges@[g.edge as int].a
    &&& g.tip == l.edges@[g.edge as int].b
    &&& g.base_position == l.vertices@[g.base as int].spec_position()
    &&& g.tip_position == l.vertices@[g.tip as int].spec_position()
    &&& g.splits == l.vertices@[g.tip as int].is_convergence()
}

/// The appended reconnection edges are exactly `(nv, cs[i])`, one per apex,
/// in apex order.
pub proof fn lemma_apex_edges_index(nv: usize, cs: Seq<usize>)
    ensures
        apex_edges(nv, cs).len() == cs.len(),
        forall|i: int| 0 <= i < cs.len() ==> apex_edges(nv, cs)[i] == (Edge {
            a: nv,
            b: cs[i],
        }),
    decreases cs.len(),
{
    if cs.len() > 0 {
        lemma_apex_edges_index(nv, cs.drop_first());
        assert forall|i: int| 0 <= i < cs.len() implies apex_edges(nv, cs)[i] == (Edge {
            a: nv,
            b: cs[i],
        }) by {
            if i > 0 {
                assert(apex_edges(nv, cs)[i] == apex_edges(nv, cs.drop_first())[i - 1]);
                assert(cs.drop_first()[i - 1] == cs[i]);
            }
        }
    }
}

impl Leaf {
    /// Every edge's two indices point into the vertex list.
    pub open spec fn wf(self) -> bool {
        forall|k: int| 0 <= k < self.edges@.len() ==> (#[trigger] self.edges@[k]).a
            < self.vertices@.len() && self.edges@[k].b < self.vertices@.len()
    }

    /// The ascending apex list of edge `e`: the third vertices forming
    /// faces adjacent to it.
    pub open spec fn apex_list(self, e: int) -> Seq<usize> {
        apexes_below(
            self.edges@,
            self.edges@[e].a,
            self.edges@[e].b,
            self.vertices@.len() as usize,
        )
    }

    /// Every edge borders exactly one face (mesh boundary) or two
    /// (interior edge).
    pub open spec fn triangle_invariant(self) -> bool {
        forall|e: int| 0 <= e < self.edges@.len() ==> 1 <= (#[trigger] self.apex_list(e)).len()
            <= 2
    }

    /// Bootstraps the minimal seed leaf: a vein base at the origin joined
    /// to a convergence target above it, flanked by two margin vertices,
    /// with the two faces on either side of the vein triangulated.
    ///
    /// Coordinate words are single-precision bit patterns:
    /// `0x3F80_0000` is 1, `0x3DCC_CCCD` is 0.1, `0xBDCC_CCCD` is -0.1.
    pub fn new() -> (leaf: Leaf)
        ensures
            leaf.vertices@ =~= seq![
                Vertex::Vein(Point { x: 0, y: 0 }),
                Vertex::Convergence(Point { x: 0, y: 0x3F80_0000 }, Morphogens),
                Vertex::Margin(Point { x: 0x3DCC_CCCD, y: 0x3DCC_CCCD }, Morphogens),
                Vertex::Margin(Point { x: 0xBDCC_CCCD, y: 0x3DCC_CCCD }, Morphogens),
            ],
            leaf.edges@ =~= seq![
                Edge { a: 0, b: 1 },
                Edge { a: 0, b: 2 },
                Edge { a: 0, b: 2 },
                Edge { a: 0, b: 3 },
                Edge { a: 2, b: 1 },
                Edge { a: 3, b: 1 },
            ],
            leaf.parameters == (Parameters {
                vein_growth_rate: 0x3F80_0000,
                new_vein_proportion: 0x3DCC_CCCD,
            }),
            leaf.wf(),
            leaf.triangle_invariant(),
    {
        let mut vertices: Vec<Vertex> = Vec::new();
        vertices.push(Vertex::Vein(Point { x: 0, y: 0 }));
        vertices.push(Vertex::Convergence(Point { x: 0, y: 0x3F80_0000 }, Morphogens));
        vertices.push(Vertex::Margin(Point { x: 0x3DCC_CCCD, y: 0x3DCC_CCCD }, Morphogens));
        vertices.push(Vertex::Margin(Point { x: 0xBDCC_CCCD, y: 0x3DCC_CCCD }, Morphogens));
        let mut edges: Vec<Edge> = Vec::new();
        edges.push(Edge { a: 0, b: 1 });
        edges.push(Edge { a: 0, b: 2 });
        edges.push(Edge { a: 0, b: 2 });
        edges.push(Edge { a: 0, b: 3 });
        edges.push(Edge { a: 2, b: 1 });
        edges.push(Edge { a: 3, b: 1 });
        let leaf = Leaf {
            vertices,
            edges,
            parameters: Parameters {
                vein_growth_rate: 0x3F80_0000,
                new_vein_proportion: 0x3DCC_CCCD,
            },
        };
        proof {
            let es = leaf.edges@;
            reveal_with_fuel(apexes_below, 5);
            assert(connects(es[0], 1, 0));
            assert(connects(es[1], 2, 0));
            assert(connects(es[3], 3, 0));
            assert(connects(es[4], 2, 1));
            assert(connects(es[5], 3, 1));
            assert(!adjacent(es, 3, 2));
            assert(leaf.apex_list(0) =~= seq![2usize, 3usize]);
            assert(leaf.apex_list(1) =~= seq![1usize]);
            assert(leaf.apex_list(2) =~= seq![1usize]);
            assert(leaf.apex_list(3) =~= seq![1usize]);
            assert(leaf.apex_list(4) =~= seq![0usize]);
            assert(leaf.apex_list(5) =~= seq![0usize]);
        }
        leaf
    }

    /// Triangle lookup: the third vertices that, together with edge `e`'s
    /// endpoints, form mesh faces adjacent to `e`. A vertex qualifies iff
    /// it is distinct from both endpoints and connected, through some
    /// existing edge in either direction, to each of them. The result is
    /// ascending, without duplicates.
    pub fn triangle_apexes(&self, e: usize) -> (r: Vec<usize>)
        requires
            self.wf(),
            e < self.edges@.len(),
        ensures
            r@ == self.apex_list(e as int),
    {
        let a = self.edges[e].a;
        let b = self.edges[e].b;
        let n = self.vertices.len();
        let mut near_a: Vec<bool> = Vec::new();
        let mut near_b: Vec<bool> = Vec::new();
        let mut i: usize = 0;
        while i < n
            invariant
                i <= n,
                near_a@.len() == i,
                near_b@.len() == i,
                forall|v: int| 0 <= v < i ==> !near_a@[v] && !near_b@[v],
            decreases n - i,
        {
            near_a.push(false);
            near_b.push(false);
            i = i + 1;
        }
        let m = self.edges.len();
        let mut k: usize = 0;
        while k < m
            invariant
                self.wf(),
                k <= m,
                m == self.edges@.len(),
                n == self.vertices@.len(),
                near_a@.len() == n,
                near_b@.len() == n,
                forall|v: usize| v < n ==> (near_a@[v as int] <==> exists|j: int|
                    0 <= j < k && connects(#[trigger] self.edges@[j], v, a)),
                forall|v: usize| v < n ==> (near_b@[v as int] <==> exists|j: int|
                    0 <= j < k && connects(#[trigger] self.edges@[j], v, b)),
            decreases m - k,
        {
            let ed = self.edges[k];
            if ed.a == a {
                near_a.set(ed.b, true);
            }
            if ed.b == a {
                near_a.set(ed.a, true);
            }
            if ed.a == b {
                near_b.set(ed.b, true);
            }
            if ed.b == b {
                near_b.set(ed.a, true);
            }
            assert forall|v: usize| v < n implies (near_a@[v as int] <==> exists|j: int|
                0 <= j < k + 1 && connects(#[trigger] self.edges@[j], v, a)) by {
                if connects(self.edges@[k as int], v, a) {
                    assert(near_a@[v as int]);
                }
                if near_a@[v as int] {
                    if !(exists|j: int| 0 <= j < k && connects(#[trigger] self.edges@[j], v, a)) {
                        assert(connects(self.edges@[k as int], v, a));
                    }
                }
            }
            assert forall|v: usize| v < n implies (near_b@[v as int] <==> exists|j: int|
                0 <= j < k + 1 && connects(#[trigger] self.edges@[j], v, b)) by {
                if connects(self.edges@[k as int], v, b) {
                    assert(near_b@[v as int]);
                }
                if near_b@[v as int] {
                    if !(exists|j: int| 0 <= j < k && connects(#[trigger] self.edges@[j], v, b)) {
                        assert(connects(self.edges@[k as int], v, b));
                    }
                }
            }
            k = k + 1;
        }
        let mut out: Vec<usize> = Vec::new();
        let mut c: usize = 0;
        while c < n
            invariant
                c <= n,
                n == self.vertices@.len(),
                near_a@.len() == n,
                near_b@.len() == n,
                a == self.edges@[e as int].a,
                b == self.edges@[e as int].b,
                e < self.edges@.len(),
                forall|v: usize| v < n ==> (near_a@[v as int] <==> adjacent(self.edges@, v, a)),
                forall|v: usize| v < n ==> (near_b@[v as int] <==> adjacent(self.edges@, v, b)),
                out@ == apexes_below(self.edges@, a, b, c),
            decreases n - c,
        {
            if c != a && c != b && near_a[c] && near_b[c] {
                out.push(c);
            }
            assert(is_apex(self.edges@, a, b, c) <==> (c != a && c != b && near_a@[c as int]
                && near_b@[c as int]));
            c = c + 1;
        }
        out
    }

    /// Splits edge `e` around a new `Vein` vertex at `position`. Triangle
    /// lookup first finds the one or two faces adjacent to the edge; the
    /// new vertex is appended (its index is the prior vertex count); one
    /// reconnection edge per apex and the two halves `(a, new)` and
    /// `(new, b)` are appended; finally the original edge is removed — a
    /// true compacting removal that shifts every later edge's position
    /// down by one. On a face count other than 1 or 2 the mesh is left
    /// untouched and the topology fault is reported.
    pub fn split_edge(&mut self, e: usize, position: Point) -> (r: Result<usize, TopologyFault>)
        requires
            old(self).wf(),
            e < old(self).edges@.len(),
        ensures
            final(self).parameters == old(self).parameters,
            final(self).wf(),
            roles_preserved(old(self).vertices@, final(self).vertices@),
            old(self).edges@.len() <= final(self).edges@.len(),
            match r {
                Ok(nv) => {
                    &&& split_allowed(
                        old(self).vertices@.len() as usize,
                        old(self).edges@,
                        e as int,
                    )
                    &&& nv == old(self).vertices@.len()
                    &&& final(self).vertices@ == old(self).vertices@.push(Vertex::Vein(position))
                    &&& final(self).edges@ == split_result_edges(
                        old(self).vertices@.len() as usize,
                        old(self).edges@,
                        e as int,
                    )
                    &&& final(self).edges@.len() == old(self).edges@.len() + 1 + split_apexes(
                        old(self).vertices@.len() as usize,
                        old(self).edges@,
                        e as int,
                    ).len()
                },
                Err(f) => {
                    &&& !split_allowed(
                        old(self).vertices@.len() as usize,
                        old(self).edges@,
                        e as int,
                    )
                    &&& f.edge == e
                    &&& f.found == split_apexes(
                        old(self).vertices@.len() as usize,
                        old(self).edges@,
                        e as int,
                    ).len()
                    &&& final(self).vertices@ == old(self).vertices@
                    &&& final(self).edges@ == old(self).edges@
                },
            },
    {
        let ghost old_es = self.edges@;
        let ghost old_vs = self.vertices@;
        let apexes = self.triangle_apexes(e);
        let ghost cs = self.apex_list(e as int);
        let count = apexes.len();
        if count != 1 && count != 2 {
            return Err(TopologyFault { edge: e, found: count });
        }
        let a = self.edges[e].a;
        let b = self.edges[e].b;
        let nv = self.vertices.len();
        self.vertices.push(Vertex::Vein(position));
        proof {
            lemma_apex_edges_index(nv, cs);
            lemma_apexes_below_membership(old_es, a, b, nv);
        }
        if count == 1 {
            let c0 = apexes[0];
            self.edges.push(Edge { a: nv, b: c0 });
        } else {
            let c0 = apexes[0];
            let c1 = apexes[1];
            self.edges.push(Edge { a: nv, b: c0 });
            self.edges.push(Edge { a: nv, b: c1 });
        }
        assert(self.edges@ =~= old_es + apex_edges(nv, cs));
        self.edges.push(Edge { a: a, b: nv });
        self.edges.push(Edge { a: nv, b: b });
        let ghost halves = seq![Edge { a: a, b: nv }, Edge { a: nv, b: b }];
        assert(self.edges@ =~= old_es + apex_edges(nv, cs) + halves);
        self.edges.remove(e);
        proof {
            let whole = old_es + apex_edges(nv, cs) + halves;
            let tail = apex_edges(nv, cs) + halves;
            assert forall|j: int|
                0 <= j < whole.remove(e as int).len() implies whole.remove(e as int)[j] == (
            old_es.remove(e as int) + tail)[j] by {
                if j < e {
                    assert(whole.remove(e as int)[j] == whole[j]);
                } else {
                    assert(whole.remove(e as int)[j] == whole[j + 1]);
                }
            }
            assert(self.edges@ =~= old_es.remove(e as int) + tail);
            assert(self.edges@ == split_result_edges(nv, old_es, e as int));
            assert forall|i: int| 0 <= i < cs.len() implies cs[i] < nv by {
                assert(cs.contains(cs[i]));
            }
            assert forall|k: int| 0 <= k < self.edges@.len() implies (#[trigger] self.edges@[k]).a
                < self.vertices@.len() && self.edges@[k].b < self.vertices@.len() by {
                let removed = old_es.remove(e as int);
                if k < removed.len() {
                    if k < e {
                        assert(removed[k] == old_es[k]);
                    } else {
                        assert(removed[k] == old_es[k + 1]);
                    }
                } else if k < removed.len() + cs.len() {
                    assert(self.edges@[k] == apex_edges(nv, cs)[k - removed.len()]);
                }
            }
        }
        Ok(nv)
    }

    /// Selects the vein edges for one growth step and snapshots their
    /// pre-step geometry, before any mutation of the same step: editing
    /// one edge's tip must not corrupt the direction computation of
    /// another edge processed later in the pass. The entries come in
    /// ascending edge order, one for every vein edge and nothing else.
    pub fn growth_plan(&self) -> (r: Vec<VeinGrowth>)
        requires
            self.wf(),
        ensures
            forall|k: int| 0 <= k < r@.len() ==> growth_entry_ok(*self, #[trigger] r@[k]),
            forall|k1: int, k2: int| 0 <= k1 < k2 < r@.len() ==> r@[k1].edge < r@[k2].edge,
            forall|e: int|
                0 <= e < self.edges@.len() && is_vein_edge(self.vertices@, #[trigger] self.edges@[e])
                    ==> exists|k: int| 0 <= k < r@.len() && #[trigger] r@[k].edge == e,
    {
        let mut r: Vec<VeinGrowth> = Vec::new();
        let m = self.edges.len();
        let mut e: usize = 0;
        while e < m
            invariant
                self.wf(),
                e <= m,
                m == self.edges@.len(),
                forall|k: int| 0 <= k < r@.len() ==> growth_entry_ok(*self, #[trigger] r@[k]),
                forall|k: int| 0 <= k < r@.len() ==> (#[trigger] r@[k]).edge < e,
                forall|k1: int, k2: int| 0 <= k1 < k2 < r@.len() ==> r@[k1].edge < r@[k2].edge,
                forall|ee: int|
                    0 <= ee < e && is_vein_edge(self.vertices@, #[trigger] self.edges@[ee])
                        ==> exists|k: int| 0 <= k < r@.len() && #[trigger] r@[k].edge == ee,
            decreases m - e,
        {
            let ed = self.edges[e];
            let va = self.vertices[ed.a];
            let vb = self.vertices[ed.b];
            let ghost r0 = r@;
            if matches!(va, Vertex::Vein(_)) && (matches!(vb, Vertex::Vein(_)) || matches!(vb,
                Vertex::Convergence(_, _),
            )) {
                r.push(
                    VeinGrowth {
                        edge: e,
                        base: ed.a,
                        tip: ed.b,
                        base_position: va.position(),
                        tip_position: vb.position(),
                        splits: vb.convergence(),
                    },
                );
                proof {
                    assert forall|ee: int|
                        0 <= ee < e + 1 && is_vein_edge(
                            self.vertices@,
                            #[trigger] self.edges@[ee],
                        ) implies exists|k: int| 0 <= k < r@.len() && #[trigger] r@[k].edge
                        == ee by {
                        if ee < e {
                            let k0 = choose|k: int|
                                0 <= k < r0.len() && #[trigger] r0[k].edge == ee;
                            assert(r@[k0].edge == ee);
                        } else {
                            assert(r@[r@.len() - 1].edge == e);
                        }
                    }
                }
            } else {
                proof {
                    assert(!is_vein_edge(self.vertices@, self.edges@[e as int]));
                }
            }
            e = e + 1;
        }
        r
    }

    /// Phase A of a growth step: applies the driver-computed tip moves in
    /// order. Only positions change — never the edge list, the vertex
    /// count, a role tag, or the parameters.
    pub fn elongate_tips(&mut self, moves: &Vec<TipMove>)
        requires
            old(self).wf(),
            forall|k: int|
                0 <= k < moves@.len() ==> (#[trigger] moves@[k]).vertex < old(
                    self,
                ).vertices@.len(),
        ensures
            final(self).vertices@ == moved_vertices(old(self).vertices@, moves@),
            final(self).vertices@.len() == old(self).vertices@.len(),
            final(self).edges@ == old(self).edges@,
            final(self).parameters == old(self).parameters,
            roles_preserved(old(self).vertices@, final(self).vertices@),
            final(self).wf(),
    {
        let ghost vs0 = self.vertices@;
        let ghost es0 = self.edges@;
        let ghost params0 = self.parameters;
        let n = moves.len();
        let mut i: usize = 0;
        while i < n
            invariant
                i <= n,
                n == moves@.len(),
                self.edges@ == es0,
                self.parameters == params0,
                self.vertices@ == moved_vertices(vs0, moves@.take(i as int)),
                self.vertices@.len() == vs0.len(),
                forall|k: int| 0 <= k < moves@.len() ==> (#[trigger] moves@[k]).vertex < vs0.len(),
            decreases n - i,
        {
            let mv = moves[i];
            let v = self.vertices[mv.vertex].with_position(mv.position);
            self.vertices.set(mv.vertex, v);
            proof {
                assert forall|k: int| 0 <= k < moves@.take(i as int).len() implies (#[trigger] moves@.take(
                    i as int,
                )[k]).vertex < vs0.len() by {
                    assert(moves@.take(i as int)[k] == moves@[k]);
                }
                lemma_moved_vertices_push(vs0, moves@.take(i as int), mv);
                assert(moves@.take(i as int + 1) =~= moves@.take(i as int).push(mv));
            }
            i = i + 1;
        }
        proof {
            assert(moves@.take(n as int) =~= moves@);
            lemma_moved_vertices_roles(vs0, moves@);
        }
    }

    /// Phase B of a growth step: splits each recorded candidate in order.
    /// Candidate indices are used as recorded; since every split grows the
    /// edge list (net +2 or +3), a candidate index valid at the start of
    /// the pass stays in range throughout. On a topology fault the pass
    /// stops at the offending candidate and reports it; the splits already
    /// made stand, as the mesh is not rolled back.
    pub fn split_candidates(&mut self, cands: &Vec<SplitCandidate>) -> (r: Result<
        (),
        TopologyFault,
    >)
        requires
            old(self).wf(),
            forall|k: int|
                0 <= k < cands@.len() ==> (#[trigger] cands@[k]).edge < old(self).edges@.len(),
        ensures
            final(self).wf(),
            final(self).parameters == old(self).parameters,
            roles_preserved(old(self).vertices@, final(self).vertices@),
            old(self).edges@.len() <= final(self).edges@.len(),
            match r {
                Ok(done) => applied_splits(old(self).vertices@, old(self).edges@, cands@) == Some(
                    (final(self).vertices@, final(self).edges@),
                ),
                Err(f) => {
                    &&& applied_splits(old(self).vertices@, old(self).edges@, cands@) is None
                    &&& f.found != 1 && f.found != 2
                },
            },
    {
        let ghost vs0 = self.vertices@;
        let ghost es0 = self.edges@;
        proof {
            assert(cands@.skip(0) =~= cands@);
        }
        let n = cands.len();
        let mut i: usize = 0;
        while i < n
            invariant
                i <= n,
                n == cands@.len(),
                vs0 == old(self).vertices@,
                es0 == old(self).edges@,
                self.wf(),
                self.parameters == old(self).parameters,
                roles_preserved(vs0, self.vertices@),
                es0.len() <= self.edges@.len(),
                applied_splits(vs0, es0, cands@) == applied_splits(
                    self.vertices@,
                    self.edges@,
                    cands@.skip(i as int),
                ),
                forall|k: int| 0 <= k < cands@.len() ==> (#[trigger] cands@[k]).edge < es0.len(),
            decreases n - i,
        {
            let c = cands[i];
            let ghost pre = *self;
            let ghost rest = cands@.skip(i as int);
            proof {
                assert(rest[0] == c);
                assert(rest.drop_first() =~= cands@.skip(i as int + 1));
            }
            match self.split_edge(c.edge, c.position) {
                Ok(_) => {},
                Err(f) => {
                    proof {
                        assert(applied_splits(pre.vertices@, pre.edges@, rest) is None);
                    }
                    return Err(f);
                },
            }
            proof {
                assert(applied_splits(pre.vertices@, pre.edges@, rest) == applied_splits(
                    self.vertices@,
                    self.edges@,
                    cands@.skip(i as int + 1),
                ));
                lemma_roles_preserved_trans(vs0, pre.vertices@, self.vertices@);
            }
            i = i + 1;
        }
        proof {
            assert(cands@.skip(n as int) =~= Seq::<SplitCandidate>::empty());
        }
        Ok(())
    }

    /// Checks the mesh invariant: every edge borders exactly one or two
    /// faces.
    pub fn check_triangle_invariant(&self) -> (r: bool)
        requires
            self.wf(),
        ensures
            r == self.triangle_invariant(),
    {
        let m = self.edges.len();
        let mut e: usize = 0;
        while e < m
            invariant
                e <= m,
                m == self.edges@.len(),
                self.wf(),
                forall|k: int| 0 <= k < e ==> 1 <= (#[trigger] self.apex_list(k)).len() <= 2,
            decreases m - e,
        {
            let apexes = self.triangle_apexes(e);
            if apexes.len() < 1 || apexes.len() > 2 {
                return false;
            }
            e = e + 1;
        }
        true
    }
}

} // verus!
