use leaf_morphogenesis::leaf::{Leaf, Parameters, SplitCandidate, TipMove, TopologyFault};
use leaf_morphogenesis::mesh::{Edge, Morphogens, Point, Vertex};

fn pt(x: f32, y: f32) -> Point {
    Point { x: x.to_bits(), y: y.to_bits() }
}

fn close(bits: u32, want: f32) -> bool {
    (f32::from_bits(bits) - want).abs() < 1e-5
}

#[test]
fn seed_leaf_matches_model() {
    let leaf = Leaf::new();
    assert_eq!(
        leaf.vertices,
        vec![
            Vertex::Vein(pt(0.0, 0.0)),
            Vertex::Convergence(pt(0.0, 1.0), Morphogens),
            Vertex::Margin(pt(0.1, 0.1), Morphogens),
            Vertex::Margin(pt(-0.1, 0.1), Morphogens),
        ]
    );
    assert_eq!(
        leaf.edges,
        vec![
            Edge { a: 0, b: 1 },
            Edge { a: 0, b: 2 },
            Edge { a: 0, b: 2 },
            Edge { a: 0, b: 3 },
            Edge { a: 2, b: 1 },
            Edge { a: 3, b: 1 },
        ]
    );
    assert_eq!(
        leaf.parameters,
        Parameters {
            vein_growth_rate: 1.0f32.to_bits(),
            new_vein_proportion: 0.1f32.to_bits(),
        }
    );
}

#[test]
fn growth_plan_selects_sole_vein_edge() {
    let leaf = Leaf::new();
    let plan = leaf.growth_plan();
    assert_eq!(plan.len(), 1);
    assert_eq!(plan[0].edge, 0);
    assert_eq!(plan[0].base, 0);
    assert_eq!(plan[0].tip, 1);
    assert_eq!(plan[0].base_position, pt(0.0, 0.0));
    assert_eq!(plan[0].tip_position, pt(0.0, 1.0));
    assert!(plan[0].splits);
}

#[test]
fn triangle_lookup_interior_edge_has_two_apexes() {
    let leaf = Leaf::new();
    assert_eq!(leaf.triangle_apexes(0), vec![2, 3]);
}

#[test]
fn triangle_lookup_boundary_edge_has_one_apex() {
    let leaf = Leaf::new();
    assert_eq!(leaf.triangle_apexes(1), vec![1]);
    assert_eq!(leaf.triangle_apexes(3), vec![1]);
}

#[test]
fn split_interior_edge_adds_three_edges() {
    let mut leaf = Leaf::new();
    let before = leaf.edges.len();
    let r = leaf.split_edge(0, pt(0.0, 0.9));
    assert_eq!(r, Ok(4));
    assert_eq!(leaf.vertices.len(), 5);
    assert_eq!(leaf.vertices[4], Vertex::Vein(pt(0.0, 0.9)));
    assert_eq!(leaf.edges.len(), before + 3);
    assert_eq!(
        leaf.edges,
        vec![
            Edge { a: 0, b: 2 },
            Edge { a: 0, b: 2 },
            Edge { a: 0, b: 3 },
            Edge { a: 2, b: 1 },
            Edge { a: 3, b: 1 },
            Edge { a: 4, b: 2 },
            Edge { a: 4, b: 3 },
            Edge { a: 0, b: 4 },
            Edge { a: 4, b: 1 },
        ]
    );
}

#[test]
fn split_boundary_edge_adds_two_edges() {
    let mut leaf = Leaf {
        vertices: vec![
            Vertex::Lamina(pt(0.0, 0.0)),
            Vertex::Lamina(pt(1.0, 0.0)),
            Vertex::Lamina(pt(0.5, 1.0)),
        ],
        edges: vec![Edge { a: 0, b: 1 }, Edge { a: 1, b: 2 }, Edge { a: 0, b: 2 }],
        parameters: Parameters { vein_growth_rate: 0, new_vein_proportion: 0 },
    };
    let before = leaf.edges.len();
    let r = leaf.split_edge(0, pt(0.5, 0.0));
    assert_eq!(r, Ok(3));
    assert_eq!(leaf.edges.len(), before + 2);
    assert_eq!(
        leaf.edges,
        vec![
            Edge { a: 1, b: 2 },
            Edge { a: 0, b: 2 },
            Edge { a: 3, b: 2 },
            Edge { a: 0, b: 3 },
            Edge { a: 3, b: 1 },
        ]
    );
}

#[test]
fn split_reports_topology_fault() {
    let mut leaf = Leaf {
        vertices: vec![Vertex::Lamina(pt(0.0, 0.0)), Vertex::Lamina(pt(1.0, 0.0))],
        edges: vec![Edge { a: 0, b: 1 }],
        parameters: Parameters { vein_growth_rate: 0, new_vein_proportion: 0 },
    };
    let r = leaf.split_edge(0, pt(0.5, 0.0));
    assert_eq!(r, Err(TopologyFault { edge: 0, found: 0 }));
    assert_eq!(leaf.vertices.len(), 2);
    assert_eq!(leaf.edges, vec![Edge { a: 0, b: 1 }]);
}

#[test]
fn candidate_pass_stops_at_fault() {
    let mut leaf = Leaf {
        vertices: vec![
            Vertex::Lamina(pt(0.0, 0.0)),
            Vertex::Lamina(pt(1.0, 0.0)),
            Vertex::Lamina(pt(0.5, 1.0)),
            Vertex::Lamina(pt(3.0, 3.0)),
            Vertex::Lamina(pt(4.0, 3.0)),
        ],
        edges: vec![
            Edge { a: 0, b: 1 },
            Edge { a: 1, b: 2 },
            Edge { a: 0, b: 2 },
            Edge { a: 3, b: 4 },
        ],
        parameters: Parameters { vein_growth_rate: 0, new_vein_proportion: 0 },
    };
    // The first candidate splits the triangle's base, whose compacting
    // removal shifts the detached edge (3, 4) from position 3 down to 2;
    // candidate indices are taken as recorded, so the second candidate
    // names position 2 and hits that faceless edge.
    let r = leaf.split_candidates(&vec![
        SplitCandidate { edge: 0, position: pt(0.5, 0.0) },
        SplitCandidate { edge: 2, position: pt(3.5, 3.0) },
    ]);
    assert_eq!(r, Err(TopologyFault { edge: 2, found: 0 }));
    // The split already made stands: the mesh is not rolled back.
    assert_eq!(leaf.vertices.len(), 6);
    assert_eq!(leaf.edges.len(), 6);
}

#[test]
fn triangle_invariant_holds_on_seed() {
    let leaf = Leaf::new();
    assert!(leaf.check_triangle_invariant());
}

#[test]
fn triangle_invariant_fails_on_lone_edge() {
    let leaf = Leaf {
        vertices: vec![Vertex::Lamina(pt(0.0, 0.0)), Vertex::Lamina(pt(1.0, 0.0))],
        edges: vec![Edge { a: 0, b: 1 }],
        parameters: Parameters { vein_growth_rate: 0, new_vein_proportion: 0 },
    };
    assert!(!leaf.check_triangle_invariant());
}

#[test]
fn elongation_moves_tip_only() {
    let mut leaf = Leaf::new();
    let base = f32::from_bits(leaf.vertices[0].position().x);
    assert_eq!(base, 0.0);
    let bx: f32 = 0.0;
    let by: f32 = 0.0;
    let tx: f32 = 0.0;
    let ty: f32 = 1.0;
    let orientation = (ty - by).atan2(tx - bx);
    let growth: f32 = 1.0 * 1.0;
    let moved = pt(tx + growth * orientation.cos(), ty + growth * orientation.sin());
    leaf.elongate_tips(&vec![TipMove { vertex: 1, position: moved }]);
    // The tip is exactly `growth` further along the base-to-tip direction.
    let tip = leaf.vertices[1].position();
    assert!(close(tip.x, 0.0));
    assert!(close(tip.y, 2.0));
    // The base did not move, roles are untouched, and the edges are untouched.
    assert_eq!(leaf.vertices[0], Vertex::Vein(pt(0.0, 0.0)));
    assert!(matches!(leaf.vertices[1], Vertex::Convergence(_, _)));
    assert_eq!(leaf.edges.len(), 6);
}

#[test]
fn later_tip_move_wins() {
    let mut leaf = Leaf::new();
    leaf.elongate_tips(&vec![
        TipMove { vertex: 1, position: pt(5.0, 5.0) },
        TipMove { vertex: 1, position: pt(7.0, 7.0) },
    ]);
    assert_eq!(leaf.vertices[1].position(), pt(7.0, 7.0));
}
