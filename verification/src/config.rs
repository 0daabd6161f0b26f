use vstd::prelude::*;

use crate::topology::ConstraintKind;

verus! {

/// How the distance constraints are projected in each iteration.
#[derive(Clone, Copy, Debug, PartialEq, Eq, Structural)]
pub enum SolverMode {
    /// Plain position-based projection, no accumulated multipliers.
    Baseline,
    /// Extended position-based dynamics: multipliers accumulate over a substep.
    Xpbd,
}

/// Which air velocity drives the aerodynamic load on a triangle.
#[derive(Clone, Copy, Debug, PartialEq, Eq, Structural)]
pub enum AerodynamicsMode {
    /// The airflow as given.
    Baseline,
    /// The airflow minus the triangle's own velocity.
    RelativeVelocity,
}

/// How bending resistance is modelled.
#[derive(Clone, Copy, Debug, PartialEq, Eq, Structural)]
pub enum BendingMode {
    /// Distance constraints that skip one particle.
    LongRangeDistance,
    /// Quadratic isometric bending energy over pairs of adjacent triangles.
    Isometric,
}

/// The knobs of one simulation step.
#[derive(Clone, Copy, Debug, PartialEq, Eq, Structural)]
pub struct SolverConfig {
    pub mode: SolverMode,
    pub aerodynamics: AerodynamicsMode,
    pub bending: BendingMode,
    pub substeps: usize,
    pub iterations: usize,
}

impl SolverConfig {
    /// The configuration with every field given.
    pub open spec fn spec_config(
        mode: SolverMode,
        aerodynamics: AerodynamicsMode,
        bending: BendingMode,
        substeps: usize,
        iterations: usize,
    ) -> SolverConfig {
        SolverConfig { mode, aerodynamics, bending, substeps, iterations }
    }

    /// This configuration, with the aerodynamics measured against the cloth's own motion.
    pub open spec fn spec_relative_aerodynamics(self) -> SolverConfig {
        SolverConfig { aerodynamics: AerodynamicsMode::RelativeVelocity, ..self }
    }

    /// This configuration, with isometric bending in place of long-range distances.
    pub open spec fn spec_isometric_bending(self) -> SolverConfig {
        SolverConfig { bending: BendingMode::Isometric, ..self }
    }

    /// Number of substeps a step is split into: at least one.
    pub open spec fn spec_substep_count(self) -> nat {
        if self.substeps == 0 { 1 } else { self.substeps as nat }
    }

    /// Number of projection passes per substep: at least one.
    pub open spec fn spec_iteration_count(self) -> nat {
        if self.iterations == 0 { 1 } else { self.iterations as nat }
    }

    /// Whether a distance constraint of this kind is projected under this configuration:
    /// with isometric bending the long-range bend distances are left alone.
    pub open spec fn spec_projects(self, kind: ConstraintKind) -> bool {
        !(self.bending == BendingMode::Isometric && kind == ConstraintKind::Bend)
    }

    /// One substep of plain projection with `iterations` passes.
    pub fn baseline(iterations: usize) -> (c: Self)
        ensures
            c == Self::spec_config(
                SolverMode::Baseline,
                AerodynamicsMode::Baseline,
                BendingMode::LongRangeDistance,
                1,
                iterations,
            ),
    {
        SolverConfig {
            mode: SolverMode::Baseline,
            aerodynamics: AerodynamicsMode::Baseline,
            bending: BendingMode::LongRangeDistance,
            substeps: 1,
            iterations,
        }
    }

    /// One substep of XPBD projection with `iterations` passes.
    pub fn xpbd(iterations: usize) -> (c: Self)
        ensures
            c == Self::spec_config(
                SolverMode::Xpbd,
                AerodynamicsMode::Baseline,
                BendingMode::LongRangeDistance,
                1,
                iterations,
            ),
    {
        SolverConfig {
            mode: SolverMode::Xpbd,
            aerodynamics: AerodynamicsMode::Baseline,
            bending: BendingMode::LongRangeDistance,
            substeps: 1,
            iterations,
        }
    }

    /// XPBD with `substeps` substeps of a single pass each.
    pub fn small_steps(substeps: usize) -> (c: Self)
        ensures
            c == Self::spec_config(
                SolverMode::Xpbd,
                AerodynamicsMode::Baseline,
                BendingMode::LongRangeDistance,
                substeps,
                1,
            ),
    {
        SolverConfig {
            mode: SolverMode::Xpbd,
            aerodynamics: AerodynamicsMode::Baseline,
            bending: BendingMode::LongRangeDistance,
            substeps,
            iterations: 1,
        }
    }

    /// XPBD with `substeps` substeps of `iterations` passes each.
    pub fn hybrid(substeps: usize, iterations: usize) -> (c: Self)
        ensures
            c == Self::spec_config(
                SolverMode::Xpbd,
                AerodynamicsMode::Baseline,
                BendingMode::LongRangeDistance,
                substeps,
                iterations,
            ),
    {
        SolverConfig {
            mode: SolverMode::Xpbd,
            aerodynamics: AerodynamicsMode::Baseline,
            bending: BendingMode::LongRangeDistance,
            substeps,
            iterations,
        }
    }

    /// The same configuration with relative-velocity aerodynamics.
    pub fn with_relative_aerodynamics(self) -> (c: Self)
        ensures
            c == self.spec_relative_aerodynamics(),
            c.aerodynamics == AerodynamicsMode::RelativeVelocity,
            c.mode == self.mode,
            c.bending == self.bending,
            c.substeps == self.substeps,
            c.iterations == self.iterations,
    {
        let mut s = self;
        s.aerodynamics = AerodynamicsMode::RelativeVelocity;
        s
    }

    /// The same configuration with isometric bending.
    pub fn with_isometric_bending(self) -> (c: Self)
        ensures
            c == self.spec_isometric_bending(),
            c.bending == BendingMode::Isometric,
            c.mode == self.mode,
            c.aerodynamics == self.aerodynamics,
            c.substeps == self.substeps,
            c.iterations == self.iterations,
    {
        let mut s = self;
        s.bending = BendingMode::Isometric;
        s
    }

    /// How many substeps a step runs: `substeps`, or one when it is zero.
    pub fn substep_count(&self) -> (n: usize)
        ensures
            n == self.spec_substep_count(),
            n >= 1,
    {
        if self.substeps == 0 { 1 } else { self.substeps }
    }

    /// How many projection passes a substep runs: `iterations`, or one when it is zero.
    pub fn iteration_count(&self) -> (n: usize)
        ensures
            n == self.spec_iteration_count(),
            n >= 1,
    {
        if self.iterations == 0 { 1 } else { self.iterations }
    }

    /// Whether the constraint multipliers restart from zero at each substep (XPBD only).
    pub fn resets_multipliers(&self) -> (b: bool)
        ensures
            b == (self.mode == SolverMode::Xpbd),
    {
        match self.mode {
            SolverMode::Xpbd => true,
            SolverMode::Baseline => false,
        }
    }

    /// Whether the aerodynamic load subtracts the triangle's velocity from the airflow.
    pub fn uses_relative_airflow(&self) -> (b: bool)
        ensures
            b == (self.aerodynamics == AerodynamicsMode::RelativeVelocity),
    {
        match self.aerodynamics {
            AerodynamicsMode::RelativeVelocity => true,
            AerodynamicsMode::Baseline => false,
        }
    }

    /// Whether the isometric bending stencils take part in the step.
    pub fn uses_isometric_bending(&self) -> (b: bool)
        ensures
            b == (self.bending == BendingMode::Isometric),
    {
        match self.bending {
            BendingMode::Isometric => true,
            BendingMode::LongRangeDistance => false,
        }
    }

    /// Whether the stencils must be built before this step: isometric bending is on
    /// and none are held yet.
    pub fn needs_isometric_bends(&self, held: usize) -> (b: bool)
        ensures
            b == (self.bending == BendingMode::Isometric && held == 0),
    {
        self.uses_isometric_bending() && held == 0
    }

    /// Whether a distance constraint of `kind` is projected in this configuration.
    pub fn projects(&self, kind: ConstraintKind) -> (b: bool)
        ensures
            b == self.spec_projects(kind),
    {
        !(self.uses_isometric_bending() && kind == ConstraintKind::Bend)
    }
}

/// The two switches act on separate fields: applying them in either order gives the
/// same configuration, and applying one twice is the same as applying it once.
pub proof fn lemma_switches_commute_and_settle(c: SolverConfig)
    ensures
        c.spec_relative_aerodynamics().spec_isometric_bending()
            == c.spec_isometric_bending().spec_relative_aerodynamics(),
        c.spec_relative_aerodynamics().spec_relative_aerodynamics()
            == c.spec_relative_aerodynamics(),
        c.spec_isometric_bending().spec_isometric_bending() == c.spec_isometric_bending(),
{
}

/// Each switch always takes effect, whatever the configuration it is applied to: the
/// aerodynamics become relative-velocity, the bending isometric.
pub proof fn lemma_switches_take_effect(c: SolverConfig)
    ensures
        c.spec_relative_aerodynamics().aerodynamics == AerodynamicsMode::RelativeVelocity,
        c.spec_isometric_bending().bending == BendingMode::Isometric,
        c.spec_relative_aerodynamics().spec_isometric_bending().aerodynamics
            == AerodynamicsMode::RelativeVelocity,
        c.spec_relative_aerodynamics().spec_isometric_bending().bending == BendingMode::Isometric,
{
}

/// A switch keeps every field but its own: the solver mode, the step counts and the
/// other switch are those of the configuration it was applied to.
pub proof fn lemma_switches_keep_other_fields(c: SolverConfig)
    ensures
        c.spec_relative_aerodynamics().mode == c.mode,
        c.spec_relative_aerodynamics().bending == c.bending,
        c.spec_relative_aerodynamics().substeps == c.substeps,
        c.spec_relative_aerodynamics().iterations == c.iterations,
        c.spec_isometric_bending().mode == c.mode,
        c.spec_isometric_bending().aerodynamics == c.aerodynamics,
        c.spec_isometric_bending().substeps == c.substeps,
        c.spec_isometric_bending().iterations == c.iterations,
{
}

/// Every configuration runs at least one substep of at least one pass, and the counts
/// equal the requested ones whenever those are positive.
pub proof fn lemma_step_counts(c: SolverConfig)
    ensures
        c.spec_substep_count() >= 1,
        c.spec_iteration_count() >= 1,
        c.substeps > 0 ==> c.spec_substep_count() == c.substeps,
        c.iterations > 0 ==> c.spec_iteration_count() == c.iterations,
{
}

/// Structural and shear constraints are projected in every configuration; bend distance
/// constraints exactly when bending is not isometric.
pub proof fn lemma_projected_kinds(c: SolverConfig)
    ensures
        c.spec_projects(ConstraintKind::StructuralEdge),
        c.spec_projects(ConstraintKind::Shear),
        c.spec_projects(ConstraintKind::Bend) <==> c.bending == BendingMode::LongRangeDistance,
{
}

} // verus!
