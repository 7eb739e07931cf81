//! What holds of every run of the coordinate-descent search.

use vstd::prelude::*;

use crate::descent::{
    actions_from, evaluations_from, initial, kept_sign, lemma_first_allowed_facts,
    lemma_step_keeps_wf, move_sign, plan_of, unit, Action, DescentState, Event, Phase, Sign,
    MAX_SWEEPS,
};
use crate::dof::{
    dof_rank, lemma_optimizable_dofs_len, spec_optimizable_dofs, Bound, Dof, WaypointBounds,
};

verus! {

/// `dof` of waypoint `w` may be moved by `amount`: its translation (for `x`
/// and `y`) or heading (for `theta`) is fixed, and its bound in `dof` is the
/// nonzero `amount`.
pub open spec fn may_move<A>(w: WaypointBounds<A>, dof: Dof, amount: A) -> bool {
    match dof {
        Dof::Dx => w.fix_translation && w.dx == Bound::Amount(amount),
        Dof::Dy => w.fix_translation && w.dy == Bound::Amount(amount),
        Dof::Dtheta => w.fix_heading && w.dtheta == Bound::Amount(amount),
    }
}

/// Every allowed move of every waypoint of `s` from which `s` has moved on
/// in its current sweep was evaluated (is in `done`), as long as the sweep
/// has not improved the best trajectory.
pub open spec fn sweep_covered<A>(s: DescentState<A>, done: Set<Action<A>>) -> bool {
    !s.improved ==> forall|w: int, m: int|
        0 <= w < s.plan.len() && 0 <= m < s.moves(w) && s.allowed(w, m) && passed(s, w, m)
            ==> #[trigger] done.contains(action_at(s, w, m))
}

/// The evaluation action for move `m` of waypoint `w` in the current sweep of `s`.
pub open spec fn action_at<A>(s: DescentState<A>, w: int, m: int) -> Action<A> {
    Action::Evaluate {
        sweep: s.sweep as usize,
        waypoint: w as usize,
        dof: s.plan[w][m / 2].0,
        amount: s.plan[w][m / 2].1,
        sign: move_sign(m),
    }
}

/// No degree of freedom occurs twice among those of one waypoint.
pub open spec fn distinct_dofs<A>(plan: Seq<Seq<(Dof, A)>>) -> bool {
    forall|w: int, i: int, j: int|
        0 <= w < plan.len() && 0 <= i < plan[w].len() && 0 <= j < plan[w].len() && i != j
            ==> #[trigger] plan[w][i].0 != #[trigger] plan[w][j].0
}

/// The current sweep of `s` has moved on from move `m` of waypoint `w`.
pub open spec fn passed<A>(s: DescentState<A>, w: int, m: int) -> bool {
    match s.phase {
        Phase::CheckCancel => w < s.waypoint,
        Phase::Evaluate => w < s.waypoint || (w == s.waypoint && m < s.mv),
        Phase::Finished => true,
        Phase::Canceled => false,
    }
}

proof fn lemma_evaluations_from_nonneg<A>(plan: Seq<Seq<(Dof, A)>>, j: int)
    ensures
        evaluations_from(plan, j) >= 0,
    decreases plan.len() - j,
{
    if 0 <= j < plan.len() {
        lemma_evaluations_from_nonneg(plan, j + 1);
    }
}

proof fn lemma_actions_from_nonneg<A>(plan: Seq<Seq<(Dof, A)>>, j: int)
    ensures
        actions_from(plan, j) >= 0,
    decreases plan.len() - j,
{
    if 0 <= j < plan.len() {
        lemma_actions_from_nonneg(plan, j + 1);
    }
}

/// Both measures of a well-formed state are nonnegative, and a running state
/// still asks for at least one action.
pub proof fn lemma_measures_nonneg<A>(s: DescentState<A>)
    requires
        s.wf(),
    ensures
        s.evaluations_left() >= 0,
        s.actions_left() >= 0,
        s.running() ==> s.actions_left() >= 1,
{
    let w = s.waypoint as int;
    lemma_evaluations_from_nonneg(s.plan, 0);
    lemma_evaluations_from_nonneg(s.plan, w);
    lemma_evaluations_from_nonneg(s.plan, w + 1);
    lemma_actions_from_nonneg(s.plan, 0);
    lemma_actions_from_nonneg(s.plan, w);
    lemma_actions_from_nonneg(s.plan, w + 1);
    if s.running() {
        let p = evaluations_from(s.plan, 0);
        let q = actions_from(s.plan, 0);
        let k = MAX_SWEEPS - 1 - s.sweep;
        assert(k * p >= 0) by (nonlinear_arith)
            requires
                k >= 0,
                p >= 0,
        ;
        assert(k * q >= 0) by (nonlinear_arith)
            requires
                k >= 0,
                q >= 0,
        ;
    }
}

/// The first allowed move after a step stays within the moves of the waypoint.
proof fn lemma_step_facts<A>(s: DescentState<A>, e: Event)
    requires
        s.wf(),
        s.answers(e),
    ensures
        s.phase is CheckCancel && e is Continue ==> {
            let m = s.first_allowed_from(s.waypoint as int, 0);
            &&& 0 <= m <= s.moves(s.waypoint as int)
            &&& forall|j: int| 0 <= j < m ==> !s.allowed(s.waypoint as int, j)
        },
        s.phase is Evaluate ==> {
            let st = s.record(e->improved);
            let m = st.first_allowed_from(s.waypoint as int, s.mv as int + 1);
            &&& s.mv + 1 <= m <= s.moves(s.waypoint as int)
            &&& forall|j: int| s.mv + 1 <= j < m ==> !st.allowed(s.waypoint as int, j)
        },
{
    let w = s.waypoint as int;
    if s.phase is CheckCancel && e is Continue {
        lemma_first_allowed_facts(s, w, 0);
    }
    if s.phase is Evaluate {
        let st = s.record(e->improved);
        lemma_first_allowed_facts(st, w, s.mv as int + 1);
    }
}

/// A search that has ended stays as it is, whatever it is handed.
pub proof fn law_ended_search_is_final<A>(s: DescentState<A>, e: Event)
    requires
        !s.running(),
    ensures
        s.step(e) == s,
{
}

/// An event that does not answer the pending action changes nothing.
pub proof fn law_unanswered_event_is_ignored<A>(s: DescentState<A>, e: Event)
    requires
        !s.answers(e),
    ensures
        s.step(e) == s,
{
}

/// Every answered action brings the search strictly closer to its end: the
/// number of actions left shrinks, so the search terminates.
pub proof fn law_step_shrinks_actions_left<A>(s: DescentState<A>, e: Event)
    requires
        s.wf(),
        s.running(),
        s.answers(e),
    ensures
        s.step(e).actions_left() < s.actions_left(),
{
    lemma_measures_nonneg(s);
    lemma_step_keeps_wf(s, e);
    lemma_measures_nonneg(s.step(e));
    lemma_step_facts(s, e);
    let q = actions_from(s.plan, 0);
    let k = MAX_SWEEPS - 1 - s.sweep;
    assert(k * q == (k - 1) * q + q) by (nonlinear_arith);
    let w = s.waypoint as int;
    lemma_actions_from_nonneg(s.plan, w + 1);
    assert(actions_from(s.plan, w) == 1 + 2 * s.plan[w].len() + actions_from(s.plan, w + 1));
    if w + 1 >= s.plan.len() {
        assert(actions_from(s.plan, w + 1) == 0);
    }
}

/// Each evaluation uses up at least one unit of the evaluation budget, and no
/// other step enlarges it.
pub proof fn law_evaluation_uses_budget<A>(s: DescentState<A>, e: Event)
    requires
        s.wf(),
    ensures
        s.step(e).evaluations_left() + (if s.phase is Evaluate && e is Evaluated {
            1int
        } else {
            0int
        }) <= s.evaluations_left(),
{
    lemma_measures_nonneg(s);
    lemma_step_keeps_wf(s, e);
    lemma_measures_nonneg(s.step(e));
    if s.running() && s.answers(e) {
        lemma_step_facts(s, e);
        let p = evaluations_from(s.plan, 0);
        let k = MAX_SWEEPS - 1 - s.sweep;
        assert(k * p == (k - 1) * p + p) by (nonlinear_arith);
        let w = s.waypoint as int;
        lemma_evaluations_from_nonneg(s.plan, 0);
        lemma_evaluations_from_nonneg(s.plan, w + 1);
        assert(k * p >= 0) by (nonlinear_arith)
            requires
                k >= 0,
                p >= 0,
        ;
        assert(evaluations_from(s.plan, w) == 2 * s.plan[w].len() + evaluations_from(
            s.plan,
            w + 1,
        ));
        if w + 1 >= s.plan.len() {
            assert(evaluations_from(s.plan, w + 1) == 0);
        }
    }
}

/// A run keeps the state well formed and its plan unchanged.
pub proof fn lemma_run_keeps_wf<A>(s: DescentState<A>, events: Seq<Event>)
    requires
        s.wf(),
    ensures
        s.run(events).wf(),
        s.run(events).plan == s.plan,
    decreases events.len(),
{
    if events.len() > 0 {
        lemma_step_keeps_wf(s, events[0]);
        lemma_run_keeps_wf(s.step(events[0]), events.drop_first());
    }
}

/// However the outcomes fall, a run evaluates at most `evaluations_left`
/// candidates.
pub proof fn law_run_evaluations_bounded<A>(s: DescentState<A>, events: Seq<Event>)
    requires
        s.wf(),
    ensures
        s.evaluations_in_run(events) <= s.evaluations_left(),
    decreases events.len(),
{
    lemma_measures_nonneg(s);
    if events.len() > 0 {
        law_evaluation_uses_budget(s, events[0]);
        lemma_step_keeps_wf(s, events[0]);
        law_run_evaluations_bounded(s.step(events[0]), events.drop_first());
    }
}

/// However the outcomes fall, a run performs at most `actions_left` actions.
pub proof fn law_run_actions_bounded<A>(s: DescentState<A>, events: Seq<Event>)
    requires
        s.wf(),
    ensures
        s.actions_in_run(events) <= s.actions_left(),
    decreases events.len(),
{
    lemma_measures_nonneg(s);
    if events.len() > 0 {
        let e = events[0];
        if s.answers(e) {
            law_step_shrinks_actions_left(s, e);
        } else {
            law_unanswered_event_is_ignored(s, e);
        }
        lemma_step_keeps_wf(s, e);
        law_run_actions_bounded(s.step(e), events.drop_first());
    }
}

proof fn lemma_plan_sums<A>(plan: Seq<Seq<(Dof, A)>>, j: int)
    requires
        0 <= j <= plan.len(),
        forall|i: int| 0 <= i < plan.len() ==> #[trigger] plan[i].len() <= 3,
    ensures
        evaluations_from(plan, j) <= 6 * (plan.len() - j),
        actions_from(plan, j) <= 7 * (plan.len() - j),
    decreases plan.len() - j,
{
    if j < plan.len() {
        lemma_plan_sums(plan, j + 1);
    }
}

/// The search over a trajectory starts well formed.
proof fn lemma_initial_wf<A>(bounds: Seq<WaypointBounds<A>>)
    requires
        bounds.len() <= usize::MAX,
    ensures
        initial(bounds).wf(),
{
    let s = initial(bounds);
    assert forall|i: int| 0 <= i < s.plan.len() implies #[trigger] s.plan[i].len() <= 3
        && s.offsets[i].len() == s.plan[i].len() by {
        lemma_optimizable_dofs_len(bounds[i]);
    }
}

/// Each sweep evaluates at most six perturbations per waypoint, so a search
/// over `n` waypoints generates at most `MAX_SWEEPS * 6 * n` candidate
/// trajectories and performs at most `MAX_SWEEPS * 7 * n` actions, however
/// the outcomes fall.
pub proof fn law_generations_bounded<A>(bounds: Seq<WaypointBounds<A>>, events: Seq<Event>)
    requires
        bounds.len() <= usize::MAX,
    ensures
        initial(bounds).evaluations_in_run(events) <= MAX_SWEEPS * 6 * bounds.len(),
        initial(bounds).actions_in_run(events) <= MAX_SWEEPS * 7 * bounds.len(),
{
    let s = initial(bounds);
    let plan = plan_of(bounds);
    lemma_initial_wf(bounds);
    assert forall|i: int| 0 <= i < plan.len() implies #[trigger] plan[i].len() <= 3 by {
        lemma_optimizable_dofs_len(bounds[i]);
    }
    lemma_plan_sums(plan, 0);
    lemma_evaluations_from_nonneg(plan, 0);
    lemma_actions_from_nonneg(plan, 0);
    law_run_evaluations_bounded(s, events);
    law_run_actions_bounded(s, events);
    let n = bounds.len() as int;
    let p = evaluations_from(plan, 0);
    let q = actions_from(plan, 0);
    if n > 0 {
        assert(s.evaluations_left() == 19 * p + p);
        assert(s.actions_left() == 19 * q + q);
        assert(p <= 6 * n);
        assert(s.evaluations_left() <= 120 * n);
        assert(q <= 7 * n);
        assert(s.actions_left() <= 140 * n);
    }
    assert(s.evaluations_in_run(events) <= s.evaluations_left());
    assert(s.actions_in_run(events) <= s.actions_left());
}

/// The search ends as canceled exactly when a cancellation check is answered
/// with a cancellation.
pub proof fn law_cancel_only_on_request<A>(s: DescentState<A>, e: Event)
    requires
        s.running(),
    ensures
        s.step(e).phase is Canceled <==> (s.phase is CheckCancel && e is Canceled),
{
}

/// The moves of a waypoint are tried in order, degree of freedom by degree
/// of freedom and `+amount` before `-amount`: the next evaluation in the same
/// sweep and at the same waypoint is of a later move.
pub proof fn law_moves_in_order<A>(s: DescentState<A>, e: Event)
    requires
        s.wf(),
        s.phase is Evaluate,
        e is Evaluated,
        s.step(e).phase is Evaluate,
        s.step(e).sweep == s.sweep,
        s.step(e).waypoint == s.waypoint,
    ensures
        s.step(e).mv > s.mv,
{
    lemma_step_facts(s, e);
}

/// A search that finishes either made no improvement in its last sweep or
/// has used up its `MAX_SWEEPS` sweeps.
pub proof fn law_finishes_after_quiet_sweep<A>(s: DescentState<A>, e: Event)
    requires
        s.wf(),
        s.running(),
        s.step(e).phase is Finished,
    ensures
        !s.step(e).improved || s.sweep + 1 == MAX_SWEEPS,
{
}

/// A new sweep starts only after a sweep that improved the best trajectory; it
/// starts at the first waypoint with no improvement recorded.
pub proof fn law_new_sweep_after_improvement<A>(s: DescentState<A>, e: Event)
    requires
        s.wf(),
        s.step(e).sweep != s.sweep,
    ensures
        s.step(e).sweep == s.sweep + 1,
        s.improved || e == (Event::Evaluated { improved: true }),
        s.step(e).phase is CheckCancel,
        s.step(e).waypoint == 0,
        !s.step(e).improved,
{
}

/// Within a sweep the waypoints are visited in order: a step that stays in
/// the same sweep never goes back to an earlier waypoint.
pub proof fn law_waypoints_in_order<A>(s: DescentState<A>, e: Event)
    requires
        s.wf(),
        s.step(e).sweep == s.sweep,
    ensures
        s.step(e).waypoint >= s.waypoint,
{
}

/// The optimizable degrees of freedom of a waypoint are exactly the ones that
/// may move, each with its bound: `x` and `y` when its translation is fixed,
/// `theta` when its heading is fixed, never one with a zero bound. They are
/// listed in the order `x`, `y`, `theta`, each at most once.
pub proof fn law_optimizable_dofs_exact<A>(w: WaypointBounds<A>)
    ensures
        forall|d: Dof, a: A| #[trigger]
            spec_optimizable_dofs(w).contains((d, a)) <==> may_move(w, d, a),
        forall|i: int, j: int|
            0 <= i < j < spec_optimizable_dofs(w).len() ==> dof_rank(
                #[trigger] spec_optimizable_dofs(w)[i].0,
            ) < dof_rank(#[trigger] spec_optimizable_dofs(w)[j].0),
{
    let s = spec_optimizable_dofs(w);
    assert forall|i: int| 0 <= i < s.len() implies may_move(w, #[trigger] s[i].0, s[i].1) by {}
    assert forall|d: Dof, a: A| may_move(w, d, a) implies #[trigger] s.contains((d, a)) by {
        let tx = crate::dof::bound_entry(Dof::Dx, w.dx);
        let ty = crate::dof::bound_entry(Dof::Dy, w.dy);
        let translation = if w.fix_translation { tx + ty } else { Seq::empty() };
        match d {
            Dof::Dx => {
                assert(s[0] == (d, a));
            },
            Dof::Dy => {
                assert(s[tx.len() as int] == (d, a));
            },
            Dof::Dtheta => {
                assert(s[translation.len() as int] == (d, a));
            },
        }
    }
}

/// The plan of a trajectory lists no degree of freedom of a waypoint twice.
pub proof fn lemma_plan_distinct<A>(bounds: Seq<WaypointBounds<A>>)
    ensures
        distinct_dofs(plan_of(bounds)),
{
    let plan = plan_of(bounds);
    assert forall|w: int, i: int, j: int|
        0 <= w < plan.len() && 0 <= i < plan[w].len() && 0 <= j < plan[w].len() && i != j
            implies #[trigger] plan[w][i].0 != #[trigger] plan[w][j].0 by {
        law_optimizable_dofs_exact(bounds[w]);
        if i < j {
            assert(dof_rank(plan[w][i].0) < dof_rank(plan[w][j].0));
        } else {
            assert(dof_rank(plan[w][j].0) < dof_rank(plan[w][i].0));
        }
    }
}

/// Only fixed waypoints are perturbed, within their bounds: in every state a
/// run reaches, a pending evaluation names a waypoint of the trajectory and a
/// degree of freedom that may move, by its nonzero bound.
pub proof fn law_only_fixed_waypoints_move<A>(bounds: Seq<WaypointBounds<A>>, events: Seq<Event>)
    requires
        bounds.len() <= usize::MAX,
    ensures
        (initial(bounds).run(events).action() matches Action::Evaluate {
            waypoint,
            dof,
            amount,
            ..
        } ==> waypoint < bounds.len() && may_move(bounds[waypoint as int], dof, amount)),
{
    let s = initial(bounds);
    lemma_initial_wf(bounds);
    lemma_run_keeps_wf(s, events);
    let t = s.run(events);
    if t.phase is Evaluate {
        let w = t.waypoint as int;
        let k = (t.mv / 2) as int;
        assert(t.plan[w] == spec_optimizable_dofs(bounds[w]));
        law_optimizable_dofs_exact(bounds[w]);
        assert(spec_optimizable_dofs(bounds[w]).contains(t.plan[w][k]));
    }
}

proof fn lemma_run_kept<A>(s: DescentState<A>, events: Seq<Event>, w: int, k: int)
    requires
        s.wf(),
        distinct_dofs(s.plan),
        0 <= w < s.plan.len(),
        0 <= k < s.plan[w].len(),
    ensures
        s.run(events).offsets[w][k] == s.offsets[w][k] + s.kept_in_run(
            events,
            w as nat,
            s.plan[w][k].0,
        ),
    decreases events.len(),
{
    if events.len() > 0 {
        let e = events[0];
        lemma_step_keeps_wf(s, e);
        let t = s.step(e);
        let d = s.plan[w][k].0;
        if s.phase is Evaluate && e is Evaluated {
            let v = s.waypoint as int;
            let j = (s.mv / 2) as int;
            assert(s.record(e->improved).offsets == t.offsets);
            if e->improved {
                assert(kept_sign(s.action(), w as nat, d) == (if v == w && j == k {
                    unit(move_sign(s.mv as int))
                } else {
                    0int
                }));
                assert(t.offsets[w][k] == s.offsets[w][k] + (if v == w && j == k {
                    unit(move_sign(s.mv as int))
                } else {
                    0int
                }));
            }
        }
        lemma_run_kept(t, events.drop_first(), w, k);
    }
}

proof fn lemma_run_kept_absent<A>(s: DescentState<A>, events: Seq<Event>, w: nat, d: Dof)
    requires
        s.wf(),
        w >= s.plan.len() || forall|k: int| 0 <= k < s.plan[w as int].len() ==> #[trigger] s.plan[w as int][k].0 != d,
    ensures
        s.kept_in_run(events, w, d) == 0,
    decreases events.len(),
{
    if events.len() > 0 {
        let e = events[0];
        lemma_step_keeps_wf(s, e);
        if s.phase is Evaluate {
            let j = (s.mv / 2) as int;
            assert(s.waypoint == w ==> s.plan[w as int][j].0 != d);
        }
        lemma_run_kept_absent(s.step(e), events.drop_first(), w, d);
    }
}

proof fn lemma_kept_is_offset<A>(bounds: Seq<WaypointBounds<A>>, events: Seq<Event>, w: int, k: int)
    requires
        bounds.len() <= usize::MAX,
        0 <= w < bounds.len(),
        0 <= k < spec_optimizable_dofs(bounds[w]).len(),
    ensures
        initial(bounds).run(events).offsets[w][k] == initial(bounds).kept_in_run(
            events,
            w as nat,
            spec_optimizable_dofs(bounds[w])[k].0,
        ),
{
    lemma_initial_wf(bounds);
    lemma_plan_distinct(bounds);
    lemma_run_kept(initial(bounds), events, w, k);
}

/// Each degree of freedom stays within its bound of its starting pose: in
/// every run, the signs of the kept evaluations of a degree of freedom of a
/// waypoint sum to `-1`, `0` or `1`, and a pending evaluation keeps that sum
/// there.
pub proof fn law_drift_within_bounds<A>(bounds: Seq<WaypointBounds<A>>, events: Seq<Event>)
    requires
        bounds.len() <= usize::MAX,
    ensures
        forall|w: nat, d: Dof| -1 <= #[trigger] initial(bounds).kept_in_run(events, w, d) <= 1,
        forall|w: int, k: int|
            0 <= w < bounds.len() && 0 <= k < spec_optimizable_dofs(bounds[w]).len()
                ==> #[trigger] initial(bounds).run(events).offsets[w][k] == initial(bounds).kept_in_run(
                events,
                w as nat,
                spec_optimizable_dofs(bounds[w])[k].0,
            ),
        (initial(bounds).run(events).action() matches Action::Evaluate { waypoint, dof, sign, .. }
            ==> -1 <= initial(bounds).kept_in_run(events, waypoint as nat, dof) + unit(sign) <= 1),
{
    let s = initial(bounds);
    lemma_initial_wf(bounds);
    lemma_plan_distinct(bounds);
    lemma_run_keeps_wf(s, events);
    let t = s.run(events);
    assert forall|w: nat, d: Dof| -1 <= #[trigger] s.kept_in_run(events, w, d) <= 1 by {
        if w < bounds.len() && exists|k: int|
            0 <= k < s.plan[w as int].len() && #[trigger] s.plan[w as int][k].0 == d {
            let k = choose|k: int| 0 <= k < s.plan[w as int].len() && #[trigger] s.plan[w as int][k].0 == d;
            lemma_kept_is_offset(bounds, events, w as int, k);
        } else {
            lemma_run_kept_absent(s, events, w, d);
        }
    }
    if t.phase is Evaluate {
        let w = t.waypoint as int;
        let k = (t.mv / 2) as int;
        lemma_kept_is_offset(bounds, events, w, k);
    }
    assert forall|w: int, k: int|
        0 <= w < bounds.len() && 0 <= k < spec_optimizable_dofs(bounds[w]).len()
            implies #[trigger] t.offsets[w][k] == s.kept_in_run(
            events,
            w as nat,
            spec_optimizable_dofs(bounds[w])[k].0,
        ) by {
        lemma_kept_is_offset(bounds, events, w, k);
    }
}

proof fn lemma_step_covered<A>(s: DescentState<A>, e: Event, done: Set<Action<A>>)
    requires
        s.wf(),
        sweep_covered(s, done),
    ensures
        sweep_covered(
            s.step(e),
            done.union(
                if s.phase is Evaluate && e is Evaluated {
                    set![s.action()]
                } else {
                    Set::empty()
                },
            ),
        ),
{
    let here: Set<Action<A>> = if s.phase is Evaluate && e is Evaluated {
        set![s.action()]
    } else {
        Set::empty()
    };
    let all = done.union(here);
    let t = s.step(e);
    lemma_step_keeps_wf(s, e);
    if s.answers(e) && s.running() {
        lemma_step_facts(s, e);
        let w = s.waypoint as int;
        if !t.improved && !(t.phase is Canceled) && t.sweep == s.sweep {
            assert(!s.improved);
            assert(t.offsets == s.offsets);
            assert forall|v: int, m: int|
                0 <= v < t.plan.len() && 0 <= m < t.moves(v) && t.allowed(v, m) && passed(
                    t,
                    v,
                    m,
                ) implies #[trigger] all.contains(action_at(t, v, m)) by {
                assert(t.allowed(v, m) == s.allowed(v, m));
                assert(action_at(t, v, m) == action_at(s, v, m));
                if v < w {
                    assert(passed(s, v, m));
                    assert(done.contains(action_at(s, v, m)));
                } else if v == w {
                    if s.phase is Evaluate {
                        if m < s.mv {
                            assert(done.contains(action_at(s, v, m)));
                        } else if m == s.mv {
                            assert(s.action() == action_at(s, v, m));
                            assert(here.contains(action_at(s, v, m)));
                        }
                    }
                }
            }
        }
    }
}

proof fn lemma_run_covered<A>(s: DescentState<A>, events: Seq<Event>, done: Set<Action<A>>)
    requires
        s.wf(),
        sweep_covered(s, done),
    ensures
        sweep_covered(s.run(events), done.union(s.evaluated_in_run(events))),
    decreases events.len(),
{
    if events.len() == 0 {
        assert(done.union(s.evaluated_in_run(events)) =~= done);
    } else {
        let e = events[0];
        let here: Set<Action<A>> = if s.phase is Evaluate && e is Evaluated {
            set![s.action()]
        } else {
            Set::empty()
        };
        lemma_step_covered(s, e, done);
        lemma_step_keeps_wf(s, e);
        lemma_run_covered(s.step(e), events.drop_first(), done.union(here));
        assert(done.union(here).union(s.step(e).evaluated_in_run(events.drop_first())) =~= done.union(
            s.evaluated_in_run(events),
        ));
    }
}

/// The search stops at a local minimum within the bounds: when it finishes
/// after a sweep without improvement, that last sweep evaluated, for every
/// waypoint and every degree of freedom of it that may move, each direction
/// whose kept moves so far leave room for it within the bound (both
/// directions when nothing was kept).
pub proof fn law_converges_to_local_minimum<A>(bounds: Seq<WaypointBounds<A>>, events: Seq<Event>)
    requires
        bounds.len() <= usize::MAX,
    ensures
        ({
            let s = initial(bounds);
            let t = s.run(events);
            t.phase is Finished && !t.improved ==> forall|w: usize, d: Dof, a: A, sign: Sign|
                w < bounds.len() && may_move(bounds[w as int], d, a) && -1 <= s.kept_in_run(
                    events,
                    w as nat,
                    d,
                ) + unit(sign) <= 1 ==> #[trigger] s.evaluated_in_run(events).contains(
                    Action::Evaluate { sweep: t.sweep as usize, waypoint: w, dof: d, amount: a, sign },
                )
        }),
{
    let s = initial(bounds);
    lemma_initial_wf(bounds);
    assert(sweep_covered(s, Set::empty()));
    lemma_run_covered(s, events, Set::empty());
    assert(Set::<Action<A>>::empty().union(s.evaluated_in_run(events)) =~= s.evaluated_in_run(
        events,
    ));
    lemma_run_keeps_wf(s, events);
    let t = s.run(events);
    if t.phase is Finished && !t.improved {
        assert forall|w: usize, d: Dof, a: A, sign: Sign|
            w < bounds.len() && may_move(bounds[w as int], d, a) && -1 <= s.kept_in_run(
                events,
                w as nat,
                d,
            ) + unit(sign) <= 1 implies #[trigger] s.evaluated_in_run(events).contains(
            Action::Evaluate { sweep: t.sweep as usize, waypoint: w, dof: d, amount: a, sign },
        ) by {
            let dofs = spec_optimizable_dofs(bounds[w as int]);
            law_optimizable_dofs_exact(bounds[w as int]);
            assert(dofs.contains((d, a)));
            let k = choose|k: int| 0 <= k < dofs.len() && dofs[k] == (d, a);
            let m = 2 * k + (if sign is Minus { 1int } else { 0int });
            assert(m / 2 == k);
            assert(move_sign(m) == sign);
            assert(t.plan[w as int] == dofs);
            lemma_kept_is_offset(bounds, events, w as int, k);
            assert(t.allowed(w as int, m));
            assert(passed(t, w as int, m));
            assert(action_at(t, w as int, m) == (Action::Evaluate {
                sweep: t.sweep as usize,
                waypoint: w,
                dof: d,
                amount: a,
                sign,
            }));
        }
    }
}

} // verus!
