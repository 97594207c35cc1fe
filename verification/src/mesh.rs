//! Mesh primitives: points, role-tagged vertices, and index-pair edges,
//! with the adjacency and triangle-apex predicates the growth step uses.

use vstd::prelude::*;

verus! {

/// Opaque per-vertex signalling value carried by margin and convergence
/// vertices. Its content does not influence the mesh topology here.
#[derive(Copy, Clone, Debug, PartialEq, Eq, Structural)]
pub struct Morphogens;

/// A 2D position. Each coordinate is held as a 32-bit word; the mesh
/// algorithms store and move positions but never do arithmetic on them,
/// so the numeric reading of the words (the reference driver uses
/// single-precision bit patterns) is the caller's concern.
#[derive(Copy, Clone, Debug, PartialEq, Eq, Structural)]
pub struct Point {
    pub x: u32,
    pub y: u32,
}

/// One mesh point, in one of four roles. The role tag is immutable after
/// creation; only the position is ever overwritten.
#[derive(Copy, Clone, Debug, PartialEq, Eq, Structural)]
pub enum Vertex {
    /// Interior blade tissue; purely structural.
    Lamina(Point),
    /// Blade-boundary vertex carrying a morphogen signal.
    Margin(Point, Morphogens),
    /// Vascular structural vertex, not a growth target.
    Vein(Point),
    /// A vein-growth target/sink; carries a morphogen signal.
    Convergence(Point, Morphogens),
}

impl Vertex {
    /// The vertex's current position, regardless of role.
    pub open spec fn spec_position(self) -> Point {
        match self {
            Vertex::Lamina(p) => p,
            Vertex::Margin(p, _) => p,
            Vertex::Vein(p) => p,
            Vertex::Convergence(p, _) => p,
        }
    }

    /// The same vertex with its position overwritten; the role tag and any
    /// morphogen signal are untouched.
    pub open spec fn spec_with_position(self, p: Point) -> Vertex {
        match self {
            Vertex::Lamina(_) => Vertex::Lamina(p),
            Vertex::Margin(_, m) => Vertex::Margin(p, m),
            Vertex::Vein(_) => Vertex::Vein(p),
            Vertex::Convergence(_, m) => Vertex::Convergence(p, m),
        }
    }

    /// Two vertices share a role tag (positions and signals aside).
    pub open spec fn same_role(self, other: Vertex) -> bool {
        match (self, other) {
            (Vertex::Lamina(_), Vertex::Lamina(_)) => true,
            (Vertex::Margin(_, _), Vertex::Margin(_, _)) => true,
            (Vertex::Vein(_), Vertex::Vein(_)) => true,
            (Vertex::Convergence(_, _), Vertex::Convergence(_, _)) => true,
            _ => false,
        }
    }

    pub open spec fn is_vein(self) -> bool {
        matches!(self, Vertex::Vein(_))
    }

    pub open spec fn is_convergence(self) -> bool {
        matches!(self, Vertex::Convergence(_, _))
    }

    /// Position accessor shared by every role.
    pub fn position(&self) -> (p: Point)
        ensures
            p == self.spec_position(),
    {
        match self {
            Vertex::Lamina(p) => *p,
            Vertex::Margin(p, _) => *p,
            Vertex::Vein(p) => *p,
            Vertex::Convergence(p, _) => *p,
        }
    }

    /// Overwrites the position without exposing or altering the role tag.
    pub fn with_position(&self, p: Point) -> (v: Vertex)
        ensures
            v == self.spec_with_position(p),
    {
        match self {
            Vertex::Lamina(_) => Vertex::Lamina(p),
            Vertex::Margin(_, m) => Vertex::Margin(p, *m),
            Vertex::Vein(_) => Vertex::Vein(p),
            Vertex::Convergence(_, m) => Vertex::Convergence(p, *m),
        }
    }

    /// Whether this vertex is a convergence target (the only role-specific
    /// question the growth step asks).
    pub fn convergence(&self) -> (r: bool)
        ensures
            r == self.is_convergence(),
    {
        matches!(self, Vertex::Convergence(_, _))
    }
}

/// An ordered pair of vertex indices: stored with fixed order `a -> b`
/// (the second endpoint is the growing tip of a vein edge), but undirected
/// for adjacency queries. Duplicate edges between one vertex pair are
/// meaningful — they stand for two distinct faces sharing that boundary —
/// and are never merged.
#[derive(Copy, Clone, Debug, PartialEq, Eq, Structural)]
pub struct Edge {
    pub a: usize,
    pub b: usize,
}

/// The edge connects `i` and `j`, in either stored order.
pub open spec fn connects(e: Edge, i: usize, j: usize) -> bool {
    (e.a == i && e.b == j) || (e.a == j && e.b == i)
}

/// Some edge of the mesh connects `i` and `j`, in either direction.
pub open spec fn adjacent(es: Seq<Edge>, i: usize, j: usize) -> bool {
    exists|k: int| 0 <= k < es.len() && connects(es[k], i, j)
}

/// `c` is a triangle apex for the endpoint pair `(a, b)`: a third vertex
/// connected, through some existing edge in either direction, to both
/// endpoints. Together with `a` and `b` it forms a face adjacent to the
/// edge `(a, b)`.
pub open spec fn is_apex(es: Seq<Edge>, a: usize, b: usize, c: usize) -> bool {
    c != a && c != b && adjacent(es, c, a) && adjacent(es, c, b)
}

/// The ascending list of apex vertices below index `c` for the endpoint
/// pair `(a, b)`.
pub open spec fn apexes_below(es: Seq<Edge>, a: usize, b: usize, c: usize) -> Seq<usize>
    decreases c,
{
    if c == 0 {
        Seq::empty()
    } else {
        let prev = apexes_below(es, a, b, (c - 1) as usize);
        if is_apex(es, a, b, (c - 1) as usize) {
            prev.push((c - 1) as usize)
        } else {
            prev
        }
    }
}

/// Every entry of `apexes_below(es, a, b, n)` is an apex below `n`, and
/// every apex below `n` is an entry: the list is exactly the apexes,
/// in ascending order.
pub proof fn lemma_apexes_below_membership(es: Seq<Edge>, a: usize, b: usize, n: usize)
    ensures
        forall|c: usize| #[trigger] apexes_below(es, a, b, n).contains(c) <==> (c < n
            && is_apex(es, a, b, c)),
    decreases n,
{
    if n > 0 {
        let m = (n - 1) as usize;
        lemma_apexes_below_membership(es, a, b, m);
        let prev = apexes_below(es, a, b, m);
        let whole = apexes_below(es, a, b, n);
        assert forall|c: usize| #[trigger] whole.contains(c) implies (c < n && is_apex(
            es,
            a,
            b,
            c,
        )) by {
            if is_apex(es, a, b, m) {
                assert(whole == prev.push(m));
                let i = choose|i: int| 0 <= i < whole.len() && whole[i] == c;
                if i < prev.len() {
                    assert(prev.contains(c));
                }
            }
        }
        assert forall|c: usize| c < n && is_apex(es, a, b, c) implies #[trigger] whole.contains(
            c,
        ) by {
            if c < m || (c == m && !is_apex(es, a, b, m)) {
                assert(prev.contains(c));
                let i = choose|i: int| 0 <= i < prev.len() && prev[i] == c;
                assert(whole[i] == c);
            } else {
                assert(c == m && is_apex(es, a, b, m));
                assert(whole == prev.push(m));
                assert(whole[prev.len() as int] == m);
            }
        }
    }
}

/// The apex list is strictly ascending; in particular it never repeats a
/// vertex.
pub proof fn lemma_apexes_below_sorted(es: Seq<Edge>, a: usize, b: usize, n: usize)
    ensures
        forall|i: int, j: int|
            0 <= i < j < apexes_below(es, a, b, n).len() ==> apexes_below(es, a, b, n)[i]
                < apexes_below(es, a, b, n)[j],
    decreases n,
{
    if n > 0 {
        let m = (n - 1) as usize;
        lemma_apexes_below_sorted(es, a, b, m);
        lemma_apexes_below_membership(es, a, b, m);
        let prev = apexes_below(es, a, b, m);
        let whole = apexes_below(es, a, b, n);
        assert forall|i: int, j: int| 0 <= i < j < whole.len() implies whole[i] < whole[j] by {
            if is_apex(es, a, b, m) && j == prev.len() {
                assert(whole[j] == m);
                assert(prev.contains(prev[i]));
            }
        }
    }
}

/// Adjacency through a concatenation is adjacency through either part.
pub proof fn lemma_adjacent_concat(s: Seq<Edge>, t: Seq<Edge>, u: usize, v: usize)
    ensures
        adjacent(s + t, u, v) <==> (adjacent(s, u, v) || adjacent(t, u, v)),
{
    if adjacent(s + t, u, v) {
        let k = choose|k: int| 0 <= k < (s + t).len() && connects((s + t)[k], u, v);
        if k < s.len() {
            assert(connects(s[k], u, v));
        } else {
            assert(connects(t[k - s.len()], u, v));
        }
    }
    if adjacent(s, u, v) {
        let k = choose|k: int| 0 <= k < s.len() && connects(s[k], u, v);
        assert(connects((s + t)[k], u, v));
    }
    if adjacent(t, u, v) {
        let k = choose|k: int| 0 <= k < t.len() && connects(t[k], u, v);
        assert(connects((s + t)[k + s.len()], u, v));
    }
}

/// Adjacency after removing the edge at `e` is adjacency through any
/// other edge.
pub proof fn lemma_adjacent_remove(es: Seq<Edge>, e: int, u: usize, v: usize)
    requires
        0 <= e < es.len(),
    ensures
        adjacent(es.remove(e), u, v) <==> (exists|k: int|
            0 <= k < es.len() && k != e && connects(#[trigger] es[k], u, v)),
{
    let cut = es.remove(e);
    if adjacent(cut, u, v) {
        let k = choose|k: int| 0 <= k < cut.len() && connects(cut[k], u, v);
        if k < e {
            assert(connects(es[k], u, v) && k != e);
        } else {
            assert(connects(es[k + 1], u, v) && k + 1 != e);
        }
    }
    if exists|k: int| 0 <= k < es.len() && k != e && connects(#[trigger] es[k], u, v) {
        let k = choose|k: int| 0 <= k < es.len() && k != e && connects(#[trigger] es[k], u, v);
        if k < e {
            assert(connects(cut[k], u, v));
        } else {
            assert(connects(cut[k - 1], u, v));
        }
    }
}

/// Two endpoint pairs whose apex predicates agree below `m` have the same
/// apex list below `m`.
pub proof fn lemma_apexes_below_congruent(
    es1: Seq<Edge>,
    a1: usize,
    b1: usize,
    es2: Seq<Edge>,
    a2: usize,
    b2: usize,
    m: usize,
)
    requires
        forall|c: usize| c < m ==> (is_apex(es1, a1, b1, c) <==> is_apex(es2, a2, b2, c)),
    ensures
        apexes_below(es1, a1, b1, m) == apexes_below(es2, a2, b2, m),
    decreases m,
{
    if m > 0 {
        lemma_apexes_below_congruent(es1, a1, b1, es2, a2, b2, (m - 1) as usize);
    }
}

} // verus!
