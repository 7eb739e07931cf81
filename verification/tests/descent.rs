use choreo_optimize::descent::{Action, Descent, Event, Sign, MAX_SWEEPS};
use choreo_optimize::dof::{Bound, Dof, WaypointBounds};

fn fixed(dx: f64, dy: f64, dtheta: f64) -> WaypointBounds<f64> {
    let b = |v: f64| if v != 0.0 { Bound::Amount(v) } else { Bound::Zero };
    WaypointBounds { fix_translation: true, fix_heading: true, dx: b(dx), dy: b(dy), dtheta: b(dtheta) }
}

fn unfixed() -> WaypointBounds<f64> {
    WaypointBounds {
        fix_translation: false,
        fix_heading: false,
        dx: Bound::Amount(1.0),
        dy: Bound::Amount(1.0),
        dtheta: Bound::Amount(1.0),
    }
}

/// Drives a search to its end: `cancel` decides each cancellation check,
/// `improves` each evaluation. Returns every action asked for, the final one last.
fn drive(
    bounds: &[WaypointBounds<f64>],
    mut cancel: impl FnMut(usize) -> bool,
    mut improves: impl FnMut(usize, usize, Dof, Sign) -> bool,
) -> Vec<Action<f64>> {
    let mut search = Descent::new(bounds);
    let mut actions = Vec::new();
    loop {
        let action = search.action();
        actions.push(action);
        match action {
            Action::CheckCancel { waypoint } => {
                let event = if cancel(waypoint) { Event::Canceled } else { Event::Continue };
                search = search.step(event);
            }
            Action::Evaluate { sweep, waypoint, dof, sign, .. } => {
                search = search.step(Event::Evaluated { improved: improves(sweep, waypoint, dof, sign) });
            }
            Action::Finish | Action::Cancel => return actions,
        }
    }
}

fn evaluations(actions: &[Action<f64>]) -> usize {
    actions.iter().filter(|a| matches!(a, Action::Evaluate { .. })).count()
}

#[test]
fn no_waypoints_finish_at_once() {
    let search: Descent<f64> = Descent::new(&[]);
    assert_eq!(search.action(), Action::Finish);
}

#[test]
fn unfixed_waypoints_are_only_checked_for_cancellation() {
    let actions = drive(&[unfixed(), unfixed()], |_| false, |_, _, _, _| true);
    assert_eq!(
        actions,
        vec![Action::CheckCancel { waypoint: 0 }, Action::CheckCancel { waypoint: 1 }, Action::Finish]
    );
}

#[test]
fn each_dof_is_tried_plus_then_minus() {
    let actions = drive(&[fixed(0.5, 0.0, 0.1)], |_| false, |_, _, _, _| false);
    let eval = |dof, amount, sign| Action::Evaluate { sweep: 0, waypoint: 0, dof, amount, sign };
    assert_eq!(
        actions,
        vec![
            Action::CheckCancel { waypoint: 0 },
            eval(Dof::Dx, 0.5, Sign::Plus),
            eval(Dof::Dx, 0.5, Sign::Minus),
            eval(Dof::Dtheta, 0.1, Sign::Plus),
            eval(Dof::Dtheta, 0.1, Sign::Minus),
            Action::Finish,
        ]
    );
}

#[test]
fn an_improvement_starts_another_sweep() {
    let bounds = [unfixed(), fixed(0.5, 0.5, 0.0)];
    let actions = drive(&bounds, |_| false, |sweep, _, dof, sign| {
        sweep == 0 && dof == Dof::Dy && sign == Sign::Minus
    });
    // The kept `-y` move puts `y` at its lower bound, so the second sweep
    // tries `+y` but not `-y` again.
    assert_eq!(actions.len(), 6 + 5 + 1);
    assert_eq!(evaluations(&actions), 4 + 3);
    assert_eq!(actions[6], Action::CheckCancel { waypoint: 0 });
    assert!(matches!(actions[8], Action::Evaluate { sweep: 1, waypoint: 1, .. }));
    assert_eq!(*actions.last().unwrap(), Action::Finish);
}

#[test]
fn a_sweep_without_improvement_ends_the_search() {
    let bounds = [fixed(0.5, 0.5, 0.5)];
    let actions = drive(&bounds, |_| false, |sweep, _, _, _| sweep < 3);
    // Sweeps 0, 1 and 2 improve; sweep 3 does not and is the last.
    assert_eq!(evaluations(&actions), 4 * 6);
    assert!(matches!(actions[actions.len() - 2], Action::Evaluate { sweep: 3, .. }));
    assert_eq!(*actions.last().unwrap(), Action::Finish);
}

#[test]
fn generations_are_bounded_by_max_sweeps() {
    let bounds = [fixed(1.0, 1.0, 1.0), fixed(1.0, 1.0, 1.0), fixed(1.0, 1.0, 1.0)];
    let actions = drive(&bounds, |_| false, |_, _, _, _| true);
    assert_eq!(evaluations(&actions), MAX_SWEEPS * 6 * 3);
    assert_eq!(actions.len(), MAX_SWEEPS * 7 * 3 + 1);
    assert!(matches!(actions[actions.len() - 2], Action::Evaluate { sweep: 19, waypoint: 2, .. }));
    assert_eq!(*actions.last().unwrap(), Action::Finish);
}

#[test]
fn cancellation_ends_the_search() {
    let actions = drive(&[fixed(1.0, 0.0, 0.0), fixed(1.0, 0.0, 0.0)], |w| w == 1, |_, _, _, _| false);
    assert_eq!(actions.len(), 5);
    assert_eq!(actions[3], Action::CheckCancel { waypoint: 1 });
    assert_eq!(actions[4], Action::Cancel);
}

#[test]
fn ended_search_ignores_further_events() {
    let mut search = Descent::new(&[fixed(1.0, 0.0, 0.0)]);
    search = search.step(Event::Canceled);
    assert_eq!(search.action(), Action::Cancel);
    search = search.step(Event::Continue);
    search = search.step(Event::Evaluated { improved: true });
    assert_eq!(search.action(), Action::Cancel);
}

#[test]
fn unanswered_events_are_ignored() {
    let mut search = Descent::new(&[fixed(1.0, 0.0, 0.0)]);
    search = search.step(Event::Evaluated { improved: true });
    assert_eq!(search.action(), Action::CheckCancel { waypoint: 0 });
    search = search.step(Event::Continue);
    let pending = search.action();
    search = search.step(Event::Continue);
    search = search.step(Event::Canceled);
    assert_eq!(search.action(), pending);
}

#[test]
fn a_kept_move_is_not_repeated_past_the_bound() {
    // `+x` is kept in the first sweep; the second sweep may only try `-x`,
    // which brings `x` back to its starting pose.
    let actions = drive(&[fixed(1.0, 0.0, 0.0)], |_| false, |_, _, _, sign| sign == Sign::Plus);
    let eval = |sweep, sign| Action::Evaluate { sweep, waypoint: 0, dof: Dof::Dx, amount: 1.0, sign };
    assert_eq!(
        actions,
        vec![
            Action::CheckCancel { waypoint: 0 },
            eval(0, Sign::Plus),
            eval(0, Sign::Minus),
            Action::CheckCancel { waypoint: 0 },
            eval(1, Sign::Minus),
            Action::Finish,
        ]
    );
}

#[test]
fn net_offsets_stay_within_one_bound() {
    let bounds = [fixed(1.0, 1.0, 1.0), fixed(0.5, 0.0, 0.25)];
    for pattern in 0u32..64 {
        let mut search = Descent::new(&bounds);
        let mut net = [[0i32; 3]; 2];
        let mut count = 0u32;
        loop {
            match search.action() {
                Action::CheckCancel { .. } => search = search.step(Event::Continue),
                Action::Evaluate { waypoint, dof, sign, .. } => {
                    let improved = (pattern >> (count % 6)) & 1 == 1;
                    count += 1;
                    let d = match dof {
                        Dof::Dx => 0,
                        Dof::Dy => 1,
                        Dof::Dtheta => 2,
                    };
                    let step = if sign == Sign::Plus { 1 } else { -1 };
                    // A proposed move never takes a degree of freedom past its bound.
                    assert!((net[waypoint][d] + step).abs() <= 1);
                    if improved {
                        net[waypoint][d] += step;
                    }
                    search = search.step(Event::Evaluated { improved });
                }
                Action::Finish => break,
                Action::Cancel => panic!("not canceled"),
            }
        }
        assert!(count as usize <= MAX_SWEEPS * 6 * bounds.len());
    }
}
