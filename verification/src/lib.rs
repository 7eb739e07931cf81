//! Coordinate-descent optimization of a trajectory's waypoint poses.
//!
//! The library holds the decisions of the optimizer: which degrees of freedom
//! of a waypoint may be perturbed, the order in which perturbations are tried,
//! when a sweep ends and when the search stops, how the unit of a perturbed
//! expression is kept, and which progress messages are sent.

pub mod dof;
pub mod descent;
pub mod laws;
pub mod unit;
pub mod progress;
