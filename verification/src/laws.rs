//! Global properties of the growth algorithm, stated and proved over the
//! split specifications: the edge-count delta of a split, and the
//! preservation of duplicate-edge multiplicity.

use vstd::prelude::*;

use crate::leaf::apex_edges;
use crate::leaf::lemma_apex_edges_index;
use crate::leaf::moved_vertices;
use crate::leaf::split_apexes;
use crate::leaf::split_result_edges;
use crate::leaf::TipMove;
use crate::mesh::adjacent;
use crate::mesh::apexes_below;
use crate::mesh::connects;
use crate::mesh::is_apex;
use crate::mesh::lemma_adjacent_concat;
use crate::mesh::lemma_adjacent_remove;
use crate::mesh::lemma_apexes_below_congruent;
use crate::mesh::lemma_apexes_below_membership;
use crate::mesh::lemma_apexes_below_sorted;
use crate::mesh::Edge;
use crate::mesh::Vertex;

verus! {

/// Split edge-count delta: splitting an edge bordering two faces is a net
/// change of exactly +3 edges (two reconnection halves and two apex edges
/// appended, one edge removed); splitting a boundary edge bordering one
/// face is a net +2.
pub proof fn lemma_split_edge_delta(vs_len: usize, es: Seq<Edge>, e: int)
    requires
        0 <= e < es.len(),
    ensures
        split_result_edges(vs_len, es, e).len() == es.len() + 1 + split_apexes(
            vs_len,
            es,
            e,
        ).len(),
        split_apexes(vs_len, es, e).len() == 2 ==> split_result_edges(vs_len, es, e).len()
            == es.len() + 3,
        split_apexes(vs_len, es, e).len() == 1 ==> split_result_edges(vs_len, es, e).len()
            == es.len() + 2,
{
    lemma_apex_edges_index(vs_len, split_apexes(vs_len, es, e));
}

/// How many edges of the mesh join the vertex pair `(u, v)`, in either
/// stored order. Duplicates count separately: each stands for a distinct
/// face boundary.
pub open spec fn pair_count(es: Seq<Edge>, u: usize, v: usize) -> nat
    decreases es.len(),
{
    if es.len() == 0 {
        0
    } else {
        (if connects(es[0], u, v) {
            1nat
        } else {
            0nat
        }) + pair_count(es.drop_first(), u, v)
    }
}

/// Pair counts add over concatenation.
pub proof fn lemma_pair_count_concat(s: Seq<Edge>, t: Seq<Edge>, u: usize, v: usize)
    ensures
        pair_count(s + t, u, v) == pair_count(s, u, v) + pair_count(t, u, v),
    decreases s.len(),
{
    if s.len() == 0 {
        assert(s + t =~= t);
    } else {
        assert((s + t)[0] == s[0]);
        assert((s + t).drop_first() =~= s.drop_first() + t);
        lemma_pair_count_concat(s.drop_first(), t, u, v);
    }
}

/// Removing the edge at position `e` lowers the pair count by one exactly
/// when that edge joined the pair.
pub proof fn lemma_pair_count_remove(es: Seq<Edge>, e: int, u: usize, v: usize)
    requires
        0 <= e < es.len(),
    ensures
        pair_count(es.remove(e), u, v) + (if connects(es[e], u, v) {
            1nat
        } else {
            0nat
        }) == pair_count(es, u, v),
{
    let front = es.subrange(0, e);
    let middle = es.subrange(e, es.len() as int);
    let back = es.subrange(e + 1, es.len() as int);
    assert(es =~= front + middle);
    assert(middle.drop_first() =~= back);
    assert(pair_count(middle, u, v) == (if connects(es[e], u, v) {
        1nat
    } else {
        0nat
    }) + pair_count(back, u, v));
    lemma_pair_count_concat(front, middle, u, v);
    assert(es.remove(e) =~= front + back);
    lemma_pair_count_concat(front, back, u, v);
}

/// The reconnection edges of a split all touch the new vertex `nv`, so
/// they join no pair of pre-existing vertices.
pub proof fn lemma_pair_count_apex_edges(nv: usize, cs: Seq<usize>, u: usize, v: usize)
    requires
        u < nv,
        v < nv,
    ensures
        pair_count(apex_edges(nv, cs), u, v) == 0,
    decreases cs.len(),
{
    if cs.len() > 0 {
        lemma_pair_count_apex_edges(nv, cs.drop_first(), u, v);
        assert(apex_edges(nv, cs)[0] == (Edge { a: nv, b: cs[0] }));
        assert(apex_edges(nv, cs).drop_first() =~= apex_edges(nv, cs.drop_first()));
    }
}

/// Multiplicity preservation: a split changes the number of edges joining
/// a pair of pre-existing vertices only by removing the split edge
/// itself. Duplicate edges between a vertex pair the split does not
/// target keep their exact multiplicity — they are never merged — and
/// tip elongation leaves the edge list untouched altogether, so the
/// multiplicity survives any number of growth steps that do not target
/// the pair.
pub proof fn lemma_split_multiplicity(vs_len: usize, es: Seq<Edge>, e: int, u: usize, v: usize)
    requires
        0 <= e < es.len(),
        u < vs_len,
        v < vs_len,
        !connects(es[e], u, v),
    ensures
        pair_count(split_result_edges(vs_len, es, e), u, v) == pair_count(es, u, v),
{
    let cs = split_apexes(vs_len, es, e);
    let halves = seq![Edge { a: es[e].a, b: vs_len }, Edge { a: vs_len, b: es[e].b }];
    lemma_pair_count_remove(es, e, u, v);
    lemma_pair_count_concat(es.remove(e), apex_edges(vs_len, cs), u, v);
    lemma_pair_count_concat(es.remove(e) + apex_edges(vs_len, cs), halves, u, v);
    lemma_pair_count_apex_edges(vs_len, cs, u, v);
    reveal_with_fuel(pair_count, 3);
    assert(!connects(halves[0], u, v));
    assert(!connects(halves[1], u, v));
    assert(halves.drop_first() =~= seq![Edge { a: vs_len, b: es[e].b }]);
    assert(halves.drop_first().drop_first() =~= Seq::<Edge>::empty());
    assert(pair_count(halves, u, v) == 0);
}

/// Elongation correctness, the mesh-level half: a pass of tip moves
/// changes no vertex the moves do not name — in particular an edge's
/// base never moves through that edge's own elongation. The geometric
/// half (the tip lands exactly `growth_rate * delta` further from the
/// base along the pre-step direction) is floating-point arithmetic and
/// rests with the driver that computes the moves.
pub proof fn lemma_moves_leave_unnamed_vertices(vs: Seq<Vertex>, moves: Seq<TipMove>, i: int)
    requires
        forall|k: int| 0 <= k < moves.len() ==> (#[trigger] moves[k]).vertex < vs.len(),
        forall|k: int| 0 <= k < moves.len() ==> (#[trigger] moves[k]).vertex != i,
        0 <= i < vs.len(),
    ensures
        moved_vertices(vs, moves)[i] == vs[i],
    decreases moves.len(),
{
    if moves.len() > 0 {
        let m = moves[0];
        let vs2 = vs.update(m.vertex as int, vs[m.vertex as int].spec_with_position(m.position));
        assert forall|k: int| 0 <= k < moves.drop_first().len() implies (#[trigger] moves.drop_first()[k]).vertex
            < vs2.len() && moves.drop_first()[k].vertex != i by {
            assert(moves.drop_first()[k] == moves[k + 1]);
        }
        lemma_moves_leave_unnamed_vertices(vs2, moves.drop_first(), i);
    }
}

/// A pair count of zero means no edge at all joins the pair.
pub proof fn lemma_pair_count_zero(es: Seq<Edge>, u: usize, v: usize)
    ensures
        (pair_count(es, u, v) == 0) <==> (forall|k: int|
            0 <= k < es.len() ==> !connects(#[trigger] es[k], u, v)),
    decreases es.len(),
{
    if es.len() > 0 {
        lemma_pair_count_zero(es.drop_first(), u, v);
        assert forall|k: int|
            0 <= k < es.len() && pair_count(es, u, v) == 0 implies !connects(
            #[trigger] es[k],
            u,
            v,
        ) by {
            if k > 0 {
                assert(es.drop_first()[k - 1] == es[k]);
            }
        }
        if forall|k: int| 0 <= k < es.len() ==> !connects(#[trigger] es[k], u, v) {
            assert forall|k: int|
                0 <= k < es.drop_first().len() implies !connects(
                #[trigger] es.drop_first()[k],
                u,
                v,
            ) by {
                assert(es.drop_first()[k] == es[k + 1]);
            }
        }
    }
}

/// Adjacency in the mesh a split leaves behind: a pre-existing vertex is
/// adjacent to the new vertex exactly when it is a split-edge endpoint or
/// one of the split edge's apexes, and two pre-existing vertices are
/// adjacent exactly when some edge other than the split edge joins them.
pub proof fn lemma_split_adjacency(vs_len: usize, es: Seq<Edge>, e: int, u: usize, v: usize)
    requires
        0 <= e < es.len(),
        forall|k: int| 0 <= k < es.len() ==> (#[trigger] es[k]).a < vs_len && es[k].b < vs_len,
        u < vs_len,
    ensures
        adjacent(split_result_edges(vs_len, es, e), u, vs_len) <==> (u == es[e].a || u == es[e].b
            || split_apexes(vs_len, es, e).contains(u)),
        v < vs_len ==> (adjacent(split_result_edges(vs_len, es, e), u, v) <==> (exists|k: int|
            0 <= k < es.len() && k != e && connects(#[trigger] es[k], u, v))),
{
    let nv = vs_len;
    let cs = split_apexes(vs_len, es, e);
    let ae = apex_edges(nv, cs);
    let halves = seq![Edge { a: es[e].a, b: nv }, Edge { a: nv, b: es[e].b }];
    let cut = es.remove(e);
    lemma_apex_edges_index(nv, cs);
    assert(split_result_edges(vs_len, es, e) == cut + ae + halves);

    lemma_adjacent_concat(cut + ae, halves, u, nv);
    lemma_adjacent_concat(cut, ae, u, nv);
    lemma_adjacent_remove(es, e, u, nv);
    assert(!adjacent(cut, u, nv));
    assert(adjacent(ae, u, nv) <==> cs.contains(u)) by {
        if adjacent(ae, u, nv) {
            let k = choose|k: int| 0 <= k < ae.len() && connects(ae[k], u, nv);
            assert(cs[k] == u);
        }
        if cs.contains(u) {
            let k = choose|k: int| 0 <= k < cs.len() && cs[k] == u;
            assert(connects(ae[k], u, nv));
        }
    }
    assert(adjacent(halves, u, nv) <==> (u == es[e].a || u == es[e].b)) by {
        if u == es[e].a {
            assert(connects(halves[0], u, nv));
        }
        if u == es[e].b {
            assert(connects(halves[1], u, nv));
        }
    }

    if v < vs_len {
        lemma_adjacent_concat(cut + ae, halves, u, v);
        lemma_adjacent_concat(cut, ae, u, v);
        lemma_adjacent_remove(es, e, u, v);
        assert(!adjacent(ae, u, v)) by {
            if adjacent(ae, u, v) {
                let k = choose|k: int| 0 <= k < ae.len() && connects(ae[k], u, v);
                assert(ae[k].a == nv);
            }
        }
        assert(!adjacent(halves, u, v)) by {
            if adjacent(halves, u, v) {
                let k = choose|k: int| 0 <= k < halves.len() && connects(halves[k], u, v);
            }
        }
    }
}

/// The split postcondition on the mesh invariant, for the two halves that
/// reconnect the split edge's endpoints through the new vertex: when the
/// split edge was the only edge joining its endpoints, each half borders
/// exactly the faces the split edge bordered — its apex list afterwards
/// is the split edge's apex list before. In particular a split performed
/// on an edge bordering one or two faces leaves both halves bordering
/// one or two faces.
pub proof fn lemma_split_halves_face_count(vs_len: usize, es: Seq<Edge>, e: int)
    requires
        0 <= e < es.len(),
        vs_len < usize::MAX,
        forall|k: int| 0 <= k < es.len() ==> (#[trigger] es[k]).a < vs_len && es[k].b < vs_len,
        es[e].a != es[e].b,
        pair_count(es, es[e].a, es[e].b) == 1,
    ensures
        apexes_below(
            split_result_edges(vs_len, es, e),
            es[e].a,
            vs_len,
            (vs_len + 1) as usize,
        ) == split_apexes(vs_len, es, e),
        apexes_below(
            split_result_edges(vs_len, es, e),
            vs_len,
            es[e].b,
            (vs_len + 1) as usize,
        ) == split_apexes(vs_len, es, e),
{
    let nv = vs_len;
    let a = es[e].a;
    let b = es[e].b;
    let cs = split_apexes(vs_len, es, e);
    let new_es = split_result_edges(vs_len, es, e);
    lemma_apexes_below_membership(es, a, b, nv);
    lemma_pair_count_remove(es, e, a, b);
    lemma_pair_count_zero(es.remove(e), a, b);

    assert forall|c: usize| c < nv implies (is_apex(new_es, a, nv, c) <==> is_apex(
        es,
        a,
        b,
        c,
    )) by {
        lemma_split_adjacency(vs_len, es, e, c, a);
        if is_apex(new_es, a, nv, c) {
            // The candidate is adjacent to the new vertex, so it is b or
            // an apex; b is no longer adjacent to a, so it is an apex.
            if c == b {
                let k = choose|k: int|
                    0 <= k < es.len() && k != e && connects(#[trigger] es[k], c, a);
                if k < e {
                    assert(connects(es.remove(e)[k], a, b));
                } else {
                    assert(connects(es.remove(e)[k - 1], a, b));
                }
                assert(false);
            }
            assert(cs.contains(c));
        }
        if is_apex(es, a, b, c) {
            assert(cs.contains(c));
            let k = choose|k: int| 0 <= k < es.len() && connects(#[trigger] es[k], c, a);
            assert(k != e);
        }
    }
    lemma_apexes_below_congruent(new_es, a, nv, es, a, b, nv);
    assert(apexes_below(new_es, a, nv, (nv + 1) as usize) == apexes_below(new_es, a, nv, nv));

    assert forall|c: usize| c < nv implies (is_apex(new_es, nv, b, c) <==> is_apex(
        es,
        a,
        b,
        c,
    )) by {
        lemma_split_adjacency(vs_len, es, e, c, b);
        if is_apex(new_es, nv, b, c) {
            if c == a {
                let k = choose|k: int|
                    0 <= k < es.len() && k != e && connects(#[trigger] es[k], c, b);
                if k < e {
                    assert(connects(es.remove(e)[k], a, b));
                } else {
                    assert(connects(es.remove(e)[k - 1], a, b));
                }
                assert(false);
            }
            assert(cs.contains(c));
        }
        if is_apex(es, a, b, c) {
            assert(cs.contains(c));
            let k = choose|k: int| 0 <= k < es.len() && connects(#[trigger] es[k], c, b);
            assert(k != e);
        }
    }
    lemma_apexes_below_congruent(new_es, nv, b, es, a, b, nv);
    assert(apexes_below(new_es, nv, b, (nv + 1) as usize) == apexes_below(new_es, nv, b, nv));
}

/// The split postcondition on the mesh invariant, for the reconnection
/// edge from the new vertex to an apex: provided no edge joins the split
/// edge's apexes to one another (as in a planar triangulation), the edge
/// `(new, apex)` borders exactly two faces afterwards — the ones whose
/// third vertices are the split edge's endpoints. Together with the law
/// on the two halves, every edge a split creates satisfies the
/// one-or-two-faces invariant.
pub proof fn lemma_split_apex_edge_face_count(vs_len: usize, es: Seq<Edge>, e: int, i: int)
    requires
        0 <= e < es.len(),
        vs_len < usize::MAX,
        forall|k: int| 0 <= k < es.len() ==> (#[trigger] es[k]).a < vs_len && es[k].b < vs_len,
        es[e].a != es[e].b,
        0 <= i < split_apexes(vs_len, es, e).len(),
        forall|j: int|
            0 <= j < split_apexes(vs_len, es, e).len() && j != i ==> !adjacent(
                es,
                split_apexes(vs_len, es, e)[i],
                #[trigger] split_apexes(vs_len, es, e)[j],
            ),
    ensures
        apexes_below(
            split_result_edges(vs_len, es, e),
            vs_len,
            split_apexes(vs_len, es, e)[i],
            (vs_len + 1) as usize,
        ).len() == 2,
        apexes_below(
            split_result_edges(vs_len, es, e),
            vs_len,
            split_apexes(vs_len, es, e)[i],
            (vs_len + 1) as usize,
        ).contains(es[e].a),
        apexes_below(
            split_result_edges(vs_len, es, e),
            vs_len,
            split_apexes(vs_len, es, e)[i],
            (vs_len + 1) as usize,
        ).contains(es[e].b),
{
    let nv = vs_len;
    let a = es[e].a;
    let b = es[e].b;
    let cs = split_apexes(vs_len, es, e);
    let ci = cs[i];
    let new_es = split_result_edges(vs_len, es, e);
    let top = (nv + 1) as usize;
    let found = apexes_below(new_es, nv, ci, top);
    lemma_apexes_below_membership(es, a, b, nv);
    assert(cs.contains(ci));
    assert(is_apex(es, a, b, ci) && ci < nv);

    assert forall|c: usize| c < top implies (is_apex(new_es, nv, ci, c) <==> (c == a || c
        == b)) by {
        if c < nv {
            lemma_split_adjacency(vs_len, es, e, c, ci);
            if is_apex(new_es, nv, ci, c) && c != a && c != b {
                // Adjacent to the new vertex yet no endpoint: a fellow
                // apex, which the hypothesis keeps disconnected from ci.
                assert(cs.contains(c));
                let j = choose|j: int| 0 <= j < cs.len() && cs[j] == c;
                let k = choose|k: int|
                    0 <= k < es.len() && k != e && connects(#[trigger] es[k], c, ci);
                assert(connects(es[k], ci, c));
                assert(adjacent(es, ci, cs[j]));
                assert(false);
            }
            if c == a {
                let k = choose|k: int| 0 <= k < es.len() && connects(#[trigger] es[k], ci, a);
                assert(connects(es[k], a, ci));
                assert(k != e);
                assert(is_apex(new_es, nv, ci, a));
            }
            if c == b {
                let k = choose|k: int| 0 <= k < es.len() && connects(#[trigger] es[k], ci, b);
                assert(connects(es[k], b, ci));
                assert(k != e);
                assert(is_apex(new_es, nv, ci, b));
            }
        }
    }
    lemma_apexes_below_membership(new_es, nv, ci, top);
    lemma_apexes_below_sorted(new_es, nv, ci, top);
    assert(found.contains(a));
    assert(found.contains(b));
    let ia = choose|k: int| 0 <= k < found.len() && found[k] == a;
    let ib = choose|k: int| 0 <= k < found.len() && found[k] == b;
    assert(ia != ib);
    assert(found.len() >= 2);
    assert(found.len() <= 2) by {
        if found.len() >= 3 {
            assert(found.contains(found[0]));
            assert(found.contains(found[1]));
            assert(found.contains(found[2]));
            assert(found[0] < found[1] < found[2]);
            assert(false);
        }
    }
}

} // verus!
