use leaf_morphogenesis::leaf::{Leaf, SplitCandidate, TipMove};
use leaf_morphogenesis::mesh::{Edge, Point, Vertex};

fn read(p: Point) -> (f32, f32) {
    (f32::from_bits(p.x), f32::from_bits(p.y))
}

fn write(x: f32, y: f32) -> Point {
    Point { x: x.to_bits(), y: y.to_bits() }
}

/// One simulation step: snapshot the vein edges, elongate every tip along
/// its pre-step base-to-tip direction by `growth_rate * delta`, and split
/// each edge whose tip is a convergence target at the point
/// `length - length * new_vein_proportion` from the pre-step base.
fn step_simulation(leaf: &mut Leaf, delta: f32) {
    let rate = f32::from_bits(leaf.parameters.vein_growth_rate);
    let proportion = f32::from_bits(leaf.parameters.new_vein_proportion);
    let plan = leaf.growth_plan();
    let mut moves: Vec<TipMove> = Vec::new();
    let mut candidates: Vec<SplitCandidate> = Vec::new();
    for g in &plan {
        let (bx, by) = read(g.base_position);
        let (tx, ty) = read(g.tip_position);
        let dx = tx - bx;
        let dy = ty - by;
        let orientation = dy.atan2(dx);
        let growth = rate * delta;
        moves.push(TipMove {
            vertex: g.tip,
            position: write(tx + growth * orientation.cos(), ty + growth * orientation.sin()),
        });
        if g.splits {
            let length = (dx * dx + dy * dy).sqrt();
            let kept = length - length * proportion;
            candidates.push(SplitCandidate {
                edge: g.edge,
                position: write(bx + kept * orientation.cos(), by + kept * orientation.sin()),
            });
        }
    }
    leaf.elongate_tips(&moves);
    leaf.split_candidates(&candidates).unwrap();
}

fn close(p: Point, x: f32, y: f32) -> bool {
    let (px, py) = read(p);
    (px - x).abs() < 1e-5 && (py - y).abs() < 1e-5
}

#[test]
fn end_to_end_single_step() {
    let mut leaf = Leaf::new();
    step_simulation(&mut leaf, 1.0);
    // The sole vein edge (0, 1) had length 1 and pointed straight up.
    // Its tip elongated to (0, 2); because the tip is a convergence
    // target, the edge split at 1.0 - 0.1 = 0.9 above the pre-step base.
    assert_eq!(leaf.vertices.len(), 5);
    assert!(close(leaf.vertices[1].position(), 0.0, 2.0));
    assert!(matches!(leaf.vertices[4], Vertex::Vein(_)));
    assert!(close(leaf.vertices[4].position(), 0.0, 0.9));
    // The split edge was removed and replaced by the two apex
    // reconnections and the halves (0, new) and (new, 1).
    let pairs: Vec<(usize, usize)> = leaf.edges.iter().map(|e| (e.a, e.b)).collect();
    assert_eq!(
        pairs,
        vec![(0, 2), (0, 2), (0, 3), (2, 1), (3, 1), (4, 2), (4, 3), (0, 4), (4, 1)]
    );
    assert!(leaf.check_triangle_invariant());
}

#[test]
fn vertex_count_never_decreases() {
    let mut leaf = Leaf::new();
    let mut count = leaf.vertices.len();
    for _ in 0..5 {
        let roles_before: Vec<u8> = leaf
            .vertices
            .iter()
            .map(|v| match v {
                Vertex::Lamina(_) => 0u8,
                Vertex::Margin(_, _) => 1u8,
                Vertex::Vein(_) => 2u8,
                Vertex::Convergence(_, _) => 3u8,
            })
            .collect();
        step_simulation(&mut leaf, 0.1);
        assert!(leaf.vertices.len() >= count);
        count = leaf.vertices.len();
        // No existing index was invalidated and no role tag changed.
        for (i, role) in roles_before.iter().enumerate() {
            let now = match leaf.vertices[i] {
                Vertex::Lamina(_) => 0u8,
                Vertex::Margin(_, _) => 1u8,
                Vertex::Vein(_) => 2u8,
                Vertex::Convergence(_, _) => 3u8,
            };
            assert_eq!(*role, now);
        }
    }
}

#[test]
fn duplicate_edges_stay_distinct() {
    let mut leaf = Leaf::new();
    for _ in 0..3 {
        step_simulation(&mut leaf, 0.1);
        let duplicates = leaf
            .edges
            .iter()
            .filter(|e| (e.a, e.b) == (0, 2) || (e.a, e.b) == (2, 0))
            .count();
        assert_eq!(duplicates, 2);
    }
}

#[test]
fn ten_small_steps_keep_the_mesh_sound() {
    let mut leaf = Leaf::new();
    for _ in 0..10 {
        step_simulation(&mut leaf, 0.1);
        assert!(leaf.check_triangle_invariant());
        for e in &leaf.edges {
            assert!(e.a < leaf.vertices.len() && e.b < leaf.vertices.len());
        }
    }
    assert!(leaf.vertices.len() == 4 + 10);
}
