//! Degrees of freedom of a waypoint and the bounds within which they move.

use vstd::prelude::*;

verus! {

/// A single degree of freedom of a waypoint pose.
#[derive(Debug, Clone, Copy, PartialEq, Eq)]
pub enum Dof {
    Dx,
    Dy,
    Dtheta,
}

/// The position of a degree of freedom in the order `x`, `y`, `theta`.
pub open spec fn dof_rank(dof: Dof) -> int {
    match dof {
        Dof::Dx => 0,
        Dof::Dy => 1,
        Dof::Dtheta => 2,
    }
}

/// The name of a degree of freedom in diagnostics.
pub open spec fn dof_label(dof: Dof) -> Seq<char> {
    match dof {
        Dof::Dx => "x"@,
        Dof::Dy => "y"@,
        Dof::Dtheta => "theta"@,
    }
}

impl Dof {
    /// The name of the degree of freedom in diagnostics: `x`, `y` or `theta`.
    pub fn label(&self) -> (name: &'static str)
        ensures
            name@ == dof_label(*self),
    {
        match self {
            Dof::Dx => "x",
            Dof::Dy => "y",
            Dof::Dtheta => "theta",
        }
    }
}

/// The pose offsets `(dx, dy, dtheta)` that move `dof` by `delta` and leave the
/// other two degrees of freedom at `zero`.
pub fn offsets<A: Copy>(dof: Dof, delta: A, zero: A) -> (r: (A, A, A))
    ensures
        r == (match dof {
            Dof::Dx => (delta, zero, zero),
            Dof::Dy => (zero, delta, zero),
            Dof::Dtheta => (zero, zero, delta),
        }),
{
    match dof {
        Dof::Dx => (delta, zero, zero),
        Dof::Dy => (zero, delta, zero),
        Dof::Dtheta => (zero, zero, delta),
    }
}

/// An optimization bound of one degree of freedom: either zero (the degree of
/// freedom is held in place) or a nonzero amount by which it may move.
#[derive(Debug, Clone, Copy, PartialEq)]
pub enum Bound<A> {
    Zero,
    Amount(A),
}

/// What the optimizer reads of a waypoint: whether its translation and its
/// heading are fixed, and its bound in each degree of freedom.
#[derive(Debug, Clone, Copy, PartialEq)]
pub struct WaypointBounds<A> {
    pub fix_translation: bool,
    pub fix_heading: bool,
    pub dx: Bound<A>,
    pub dy: Bound<A>,
    pub dtheta: Bound<A>,
}

/// The entry that a bound contributes for `dof`: none when it is zero.
pub open spec fn bound_entry<A>(dof: Dof, bound: Bound<A>) -> Seq<(Dof, A)> {
    match bound {
        Bound::Zero => Seq::empty(),
        Bound::Amount(a) => seq![(dof, a)],
    }
}

/// The optimizable degrees of freedom of a waypoint, in the order `x`, `y`,
/// `theta`: translation only when it is fixed, heading only when it is fixed,
/// and never one whose bound is zero.
pub open spec fn spec_optimizable_dofs<A>(w: WaypointBounds<A>) -> Seq<(Dof, A)> {
    let translation = if w.fix_translation {
        bound_entry(Dof::Dx, w.dx) + bound_entry(Dof::Dy, w.dy)
    } else {
        Seq::empty()
    };
    let heading = if w.fix_heading {
        bound_entry(Dof::Dtheta, w.dtheta)
    } else {
        Seq::empty()
    };
    translation + heading
}

/// A waypoint has at most three optimizable degrees of freedom.
pub proof fn lemma_optimizable_dofs_len<A>(w: WaypointBounds<A>)
    ensures
        spec_optimizable_dofs(w).len() <= 3,
{
}

fn push_bound<A: Copy>(out: &mut Vec<(Dof, A)>, dof: Dof, bound: Bound<A>)
    ensures
        final(out)@ == old(out)@ + bound_entry(dof, bound),
{
    match bound {
        Bound::Zero => {},
        Bound::Amount(a) => {
            out.push((dof, a));
        },
    }
}

/// Which degrees of freedom of waypoint `idx` are optimizable, given its
/// bounds.
///
/// Only fixed waypoints constrain the generated path, so only they are
/// perturbed within their bounds; unfixed waypoints are free initial guesses
/// that the solver places on its own.
pub fn optimizable_dofs<A: Copy>(waypoints: &[WaypointBounds<A>], idx: usize) -> (out: Vec<(Dof, A)>)
    requires
        idx < waypoints@.len(),
    ensures
        out@ == spec_optimizable_dofs(waypoints@[idx as int]),
{
    let waypoint = &waypoints[idx];
    let mut out: Vec<(Dof, A)> = Vec::new();
    if waypoint.fix_translation {
        push_bound(&mut out, Dof::Dx, waypoint.dx);
        push_bound(&mut out, Dof::Dy, waypoint.dy);
    }
    if waypoint.fix_heading {
        push_bound(&mut out, Dof::Dtheta, waypoint.dtheta);
    }
    proof {
        let w = waypoints@[idx as int];
        assert(out@ =~= spec_optimizable_dofs(w));
    }
    out
}

} // verus!
