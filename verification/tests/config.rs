use cloth_core::{
    AerodynamicsMode, Attachment, BendingMode, ConstraintKind, MaterialKind, SolverConfig,
    SolverMode,
};

#[test]
fn builders() {
    let b = SolverConfig::baseline(7);
    assert_eq!(
        b,
        SolverConfig {
            mode: SolverMode::Baseline,
            aerodynamics: AerodynamicsMode::Baseline,
            bending: BendingMode::LongRangeDistance,
            substeps: 1,
            iterations: 7
        }
    );
    let x = SolverConfig::xpbd(5);
    assert_eq!((x.mode, x.substeps, x.iterations), (SolverMode::Xpbd, 1, 5));
    let s = SolverConfig::small_steps(7);
    assert_eq!((s.mode, s.substeps, s.iterations), (SolverMode::Xpbd, 7, 1));
    let h = SolverConfig::hybrid(2, 4);
    assert_eq!((h.mode, h.substeps, h.iterations), (SolverMode::Xpbd, 2, 4));
    assert_eq!(h.aerodynamics, AerodynamicsMode::Baseline);
    assert_eq!(h.bending, BendingMode::LongRangeDistance);
}

#[test]
fn switches_commute_and_keep_the_rest() {
    let c = SolverConfig::hybrid(2, 4);
    let a = c.with_relative_aerodynamics().with_isometric_bending();
    let b = c.with_isometric_bending().with_relative_aerodynamics();
    assert_eq!(a, b);
    assert_eq!(a.aerodynamics, AerodynamicsMode::RelativeVelocity);
    assert_eq!(a.bending, BendingMode::Isometric);
    assert_eq!((a.mode, a.substeps, a.iterations), (SolverMode::Xpbd, 2, 4));
    assert_eq!(a.with_relative_aerodynamics(), a);
}

#[test]
fn step_counts_are_at_least_one() {
    let z = SolverConfig::hybrid(0, 0);
    assert_eq!((z.substep_count(), z.iteration_count()), (1, 1));
    let c = SolverConfig::hybrid(3, 9);
    assert_eq!((c.substep_count(), c.iteration_count()), (3, 9));
}

#[test]
fn step_decisions() {
    let prod = SolverConfig::baseline(7).with_relative_aerodynamics();
    assert!(!prod.resets_multipliers());
    assert!(prod.uses_relative_airflow());
    assert!(prod.projects(ConstraintKind::Bend));
    assert!(!prod.needs_isometric_bends(0));
    let iso = SolverConfig::xpbd(3).with_isometric_bending();
    assert!(iso.resets_multipliers());
    assert!(!iso.uses_relative_airflow());
    assert!(!iso.projects(ConstraintKind::Bend));
    assert!(iso.projects(ConstraintKind::StructuralEdge));
    assert!(iso.projects(ConstraintKind::Shear));
    assert!(iso.needs_isometric_bends(0));
    assert!(!iso.needs_isometric_bends(12));
}

#[test]
fn ids_select_materials_and_attachments() {
    assert_eq!(MaterialKind::from_id(0), MaterialKind::Silk);
    assert_eq!(MaterialKind::from_id(1), MaterialKind::Cotton);
    assert_eq!(MaterialKind::from_id(2), MaterialKind::Canvas);
    assert_eq!(MaterialKind::from_id(3), MaterialKind::Nylon);
    assert_eq!(MaterialKind::from_id(4), MaterialKind::Rubber);
    assert_eq!(MaterialKind::from_id(200), MaterialKind::Cotton);
    assert_eq!(Attachment::from_id(0), Attachment::FullEdge);
    assert_eq!(Attachment::from_id(1), Attachment::TwoPoint);
    assert_eq!(Attachment::from_id(2), Attachment::TopEdge);
    assert_eq!(Attachment::from_id(9), Attachment::FullEdge);
}
