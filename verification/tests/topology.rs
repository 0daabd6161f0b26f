use cloth_core::bends::{pair_shared_edges, BendStencil};
use cloth_core::topology::jitter_step;
use cloth_core::{Attachment, ConstraintKind, Link, Topology};

fn cloth() -> Topology {
    Topology::new(12, 8, Attachment::FullEdge)
}

#[test]
fn topology_and_pins() {
    let c = cloth();
    assert_eq!(c.pinned_count(), 8);
    assert_eq!(c.indices().len() / 3, 154);
    assert!(c.constraint_count() > 200)
}

#[test]
fn constraint_counts_follow_the_grid_formula() {
    for (w, h) in [(2usize, 2usize), (3, 2), (2, 5), (12, 8), (30, 20)] {
        let t = Topology::new(w, h, Attachment::FullEdge);
        let (s, sh, b) = t.kind_counts();
        assert_eq!(s, (w - 1) * h + w * (h - 1));
        assert_eq!(sh, 2 * (w - 1) * (h - 1));
        assert_eq!(b, (w - 2) * h + w * (h - 2));
        assert_eq!(t.constraint_count(), s + sh + b);
        assert_eq!(t.indices().len(), 6 * (w - 1) * (h - 1));
    }
    let (s, sh, b) = cloth().kind_counts();
    assert_eq!((s, sh, b), (172, 154, 152));
    assert_eq!(cloth().constraint_count(), 478);
}

#[test]
fn smallest_grid_links_in_build_order() {
    let t = Topology::new(2, 2, Attachment::FullEdge);
    let expected = vec![
        Link { a: 0, b: 1, kind: ConstraintKind::StructuralEdge },
        Link { a: 0, b: 2, kind: ConstraintKind::StructuralEdge },
        Link { a: 0, b: 3, kind: ConstraintKind::Shear },
        Link { a: 1, b: 2, kind: ConstraintKind::Shear },
        Link { a: 1, b: 3, kind: ConstraintKind::StructuralEdge },
        Link { a: 2, b: 3, kind: ConstraintKind::StructuralEdge },
    ];
    assert_eq!(t.links(), &expected);
    assert_eq!(t.indices(), &vec![0u32, 2, 1, 1, 2, 3]);
}

#[test]
fn bend_links_skip_one_particle() {
    let t = Topology::new(3, 3, Attachment::TopEdge);
    let bends: Vec<(usize, usize)> = t
        .links()
        .iter()
        .filter(|l| l.kind == ConstraintKind::Bend)
        .map(|l| (l.a, l.b))
        .collect();
    assert_eq!(bends, vec![(0, 2), (0, 6), (1, 7), (2, 8), (3, 5), (6, 8)]);
}

#[test]
fn links_and_indices_stay_inside_the_grid() {
    let t = Topology::new(7, 5, Attachment::TwoPoint);
    for l in t.links() {
        assert!(l.a < l.b && l.b < 35);
    }
    for &i in t.indices() {
        assert!(i < 35);
    }
}

#[test]
fn pins_per_attachment() {
    let mut t = Topology::new(12, 8, Attachment::FullEdge);
    let full: Vec<usize> = (0..96).filter(|&i| t.pinned()[i]).collect();
    assert_eq!(full, (0..8).map(|y| y * 12).collect::<Vec<_>>());
    t.set_attachment(Attachment::TwoPoint);
    assert_eq!(t.pinned_count(), 2);
    assert!(t.pinned()[0] && t.pinned()[84]);
    t.set_attachment(Attachment::TopEdge);
    assert_eq!(t.pinned_count(), 12);
    assert!((0..12).all(|i| t.pinned()[i]) && !t.pinned()[12]);
    assert_eq!(t.attachment(), Attachment::TopEdge);
    assert_eq!(t.constraint_count(), 478);
    assert_eq!(t.indices().len(), 462);
}

#[test]
fn set_attachment_last_one_wins() {
    let mut a = Topology::new(5, 4, Attachment::TopEdge);
    a.set_attachment(Attachment::TwoPoint);
    a.set_attachment(Attachment::FullEdge);
    let b = Topology::new(5, 4, Attachment::FullEdge);
    assert_eq!(a.pinned(), b.pinned());
    assert_eq!(a.pinned_count(), 4);
}

#[test]
fn particle_ids_are_row_major() {
    let t = cloth();
    assert_eq!(t.id(0, 0), 0);
    assert_eq!(t.id(11, 0), 11);
    assert_eq!(t.id(0, 1), 12);
    assert_eq!(t.id(11, 7), 95);
    assert_eq!((t.width(), t.height()), (12, 8));
}

#[test]
fn grid_bends_pair_every_interior_edge() {
    let t = cloth();
    let bends = t.build_isometric_bends();
    // interior horizontal, vertical and diagonal edges of a 12 x 8 grid
    assert_eq!(bends.len(), 11 * 6 + 10 * 7 + 11 * 7);
    for b in &bends {
        assert!(b.a < b.b && b.b < 96 && b.c < 96 && b.d < 96);
        assert!(b.c != b.d);
    }
    let small = Topology::new(2, 2, Attachment::FullEdge).build_isometric_bends();
    assert_eq!(small, vec![BendStencil { a: 1, b: 2, c: 0, d: 3 }]);
}

#[test]
fn pairing_on_a_hand_made_list() {
    // two triangles sharing 5-9, then a lone one, then a partial triangle
    let idx = vec![5u32, 9, 1, 9, 5, 7, 2, 3, 4, 5, 9];
    assert_eq!(pair_shared_edges(&idx), vec![BendStencil { a: 5, b: 9, c: 1, d: 7 }]);
    // an edge met a third time starts waiting again
    let idx = vec![0u32, 1, 2, 1, 0, 3, 0, 1, 4, 4, 1, 0];
    assert_eq!(
        pair_shared_edges(&idx),
        vec![
            BendStencil { a: 0, b: 1, c: 2, d: 3 },
            BendStencil { a: 1, b: 4, c: 0, d: 0 },
            BendStencil { a: 0, b: 1, c: 4, d: 4 },
            BendStencil { a: 0, b: 4, c: 1, d: 1 },
        ]
    );
    assert!(pair_shared_edges(&vec![]).is_empty());
}

#[test]
fn jitter_levels() {
    assert_eq!(jitter_step(0, 0), 0);
    assert_eq!(jitter_step(1, 0), 3);
    assert_eq!(jitter_step(0, 1), 3);
    assert_eq!(jitter_step(2, 3), (34 + 93) % 7);
}
