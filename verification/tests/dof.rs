use choreo_optimize::dof::{offsets, optimizable_dofs, Bound, Dof, WaypointBounds};

fn bound(value: f64) -> Bound<f64> {
    if value != 0.0 {
        Bound::Amount(value)
    } else {
        Bound::Zero
    }
}

fn waypoint(fix_translation: bool, fix_heading: bool, dx: f64, dy: f64, dtheta: f64) -> WaypointBounds<f64> {
    WaypointBounds { fix_translation, fix_heading, dx: bound(dx), dy: bound(dy), dtheta: bound(dtheta) }
}

/// The waypoints of the test trajectory: an unfixed one with zero bounds, and
/// a fixed one with bounds 0.5 m, 0.5 m and 10 deg.
fn test_waypoints() -> Vec<WaypointBounds<f64>> {
    vec![
        waypoint(false, false, 0.0, 0.0, 0.0),
        waypoint(true, true, 0.5, 0.5, 0.174_532_925_199_432_95),
    ]
}

#[test]
fn optimizable_dofs_perturbs_fixed_waypoints_only() {
    let waypoints = test_waypoints();
    assert!(optimizable_dofs(&waypoints, 0).is_empty());
    assert_eq!(
        optimizable_dofs(&waypoints, 1),
        vec![(Dof::Dx, 0.5), (Dof::Dy, 0.5), (Dof::Dtheta, 0.174_532_925_199_432_95)]
    );
}

#[test]
fn optimizable_dofs_respects_fix_flags_and_zero_bounds() {
    let waypoints = test_waypoints();
    let mut zeroed = waypoints.clone();
    zeroed[1].dx = bound(0.0);
    zeroed[1].dy = bound(0.0);
    zeroed[1].dtheta = bound(0.0);
    assert!(optimizable_dofs(&zeroed, 1).is_empty());
    let mut fixed = waypoints.clone();
    fixed[0].fix_translation = true;
    fixed[0].fix_heading = true;
    fixed[0].dx = bound(1.0);
    assert_eq!(optimizable_dofs(&fixed, 0), vec![(Dof::Dx, 1.0)]);
}

#[test]
fn optimizable_dofs_heading_only() {
    let waypoints = vec![waypoint(false, true, 1.0, 2.0, 0.25)];
    assert_eq!(optimizable_dofs(&waypoints, 0), vec![(Dof::Dtheta, 0.25)]);
}

#[test]
fn optimizable_dofs_translation_only_skips_zero_y() {
    let waypoints = vec![waypoint(true, false, -0.5, 0.0, 0.25)];
    assert_eq!(optimizable_dofs(&waypoints, 0), vec![(Dof::Dx, -0.5)]);
}

#[test]
fn offsets_move_only_the_requested_dof() {
    assert_eq!(offsets(Dof::Dx, 0.5, 0.0), (0.5, 0.0, 0.0));
    assert_eq!(offsets(Dof::Dy, -0.5, 0.0), (0.0, -0.5, 0.0));
    assert_eq!(offsets(Dof::Dtheta, 0.25, 0.0), (0.0, 0.0, 0.25));
}

#[test]
fn dof_labels() {
    assert_eq!(Dof::Dx.label(), "x");
    assert_eq!(Dof::Dy.label(), "y");
    assert_eq!(Dof::Dtheta.label(), "theta");
}
