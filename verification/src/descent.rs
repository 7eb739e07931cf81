//! The coordinate-descent search over waypoint perturbations.
//!
//! The search is a state machine: it names the next piece of outside work
//! (check for cancellation, or evaluate one perturbed candidate) as an
//! [`Action`], and the caller hands the outcome back as an [`Event`].
//! Trajectory generation and the comparison of trajectory times happen in the
//! caller; the machine decides what is tried, in which order, and when the
//! search ends.
//!
//! Each degree of freedom carries a net offset from its starting pose, in
//! units of its bound. A move is proposed only when it keeps that offset
//! within `-1..=1`, so no pose leaves its bounds however many sweeps improve
//! it.

use vstd::prelude::*;

use crate::dof::{optimizable_dofs, spec_optimizable_dofs, Dof, WaypointBounds};

verus! {

/// The maximum number of coordinate-descent sweeps. Each sweep evaluates up
/// to six perturbations per waypoint, so this bounds the total number of
/// trajectory generations.
pub const MAX_SWEEPS: usize = 20;

/// The direction of a perturbation: by `+amount` or by `-amount`.
#[derive(Debug, Clone, Copy, PartialEq, Eq)]
pub enum Sign {
    Plus,
    Minus,
}

/// Where the search stands.
#[derive(Debug, Clone, Copy, PartialEq, Eq)]
pub enum Phase {
    /// About to visit a waypoint; cancellation is checked first.
    CheckCancel,
    /// Waiting for the outcome of one candidate.
    Evaluate,
    /// The search ended: a sweep brought no improvement, or the sweeps ran out.
    Finished,
    /// The search was canceled.
    Canceled,
}

/// The next piece of work the search asks of its caller.
#[derive(Debug, Clone, Copy, PartialEq)]
pub enum Action<A> {
    /// Check whether cancellation was requested before visiting `waypoint`.
    CheckCancel { waypoint: usize },
    /// Perturb waypoint `waypoint` of the current best by `sign * amount` in
    /// `dof`, regenerate it, and report whether it beat the best time. A
    /// candidate that beats it becomes the new best.
    Evaluate { sweep: usize, waypoint: usize, dof: Dof, amount: A, sign: Sign },
    /// The search is over; the current best is the result.
    Finish,
    /// The search was canceled.
    Cancel,
}

/// The outcome of an [`Action`], handed back to the search.
#[derive(Debug, Clone, Copy, PartialEq, Eq)]
pub enum Event {
    /// No cancellation was requested.
    Continue,
    /// Cancellation was requested.
    Canceled,
    /// The candidate was evaluated; `improved` when it was generated and its
    /// total time is below the best so far (a failed generation is no
    /// improvement).
    Evaluated { improved: bool },
}

/// The mathematical state of the search.
pub struct DescentState<A> {
    /// The optimizable degrees of freedom of each waypoint, with their amounts.
    pub plan: Seq<Seq<(Dof, A)>>,
    /// The net offset of each degree of freedom of each waypoint from its
    /// starting pose, in units of its amount: the sum of the signs of the
    /// moves that were kept.
    pub offsets: Seq<Seq<int>>,
    pub sweep: nat,
    pub waypoint: nat,
    /// The pending move of the current waypoint: degree of freedom `mv / 2`
    /// of `plan[waypoint]`, with `+` when `mv` is even and `-` when it is odd.
    pub mv: nat,
    /// Whether the current sweep has improved the best trajectory.
    pub improved: bool,
    pub phase: Phase,
}

/// The sign of move `mv`: moves alternate `+` and `-`, degree of freedom by
/// degree of freedom.
pub open spec fn move_sign(mv: int) -> Sign {
    if mv % 2 == 0 {
        Sign::Plus
    } else {
        Sign::Minus
    }
}

/// The change of a net offset that a move of sign `sign` makes.
pub open spec fn unit(sign: Sign) -> int {
    match sign {
        Sign::Plus => 1,
        Sign::Minus => -1,
    }
}

/// Move `m` of waypoint `w` keeps the net offset of its degree of freedom
/// within `-1..=1`.
pub open spec fn move_allowed(offsets: Seq<Seq<int>>, w: int, m: int) -> bool {
    -1 <= offsets[w][m / 2] + unit(move_sign(m)) <= 1
}

/// The first allowed move of waypoint `w` from move `m` on, or `moves` when
/// no move from `m` on is allowed.
pub open spec fn first_allowed(offsets: Seq<Seq<int>>, moves: int, w: int, m: int) -> int
    decreases moves - m,
{
    if m >= moves {
        moves
    } else if m >= 0 && move_allowed(offsets, w, m) {
        m
    } else {
        first_allowed(offsets, moves, w, m + 1)
    }
}

/// The sign, as `+1` or `-1`, of action `a` when it evaluates degree of
/// freedom `d` of waypoint `w`; `0` for any other action.
pub open spec fn kept_sign<A>(a: Action<A>, w: nat, d: Dof) -> int {
    match a {
        Action::Evaluate { waypoint, dof, sign, .. } => if waypoint == w && dof == d {
            unit(sign)
        } else {
            0
        },
        _ => 0,
    }
}

/// The plan of a trajectory: the optimizable degrees of freedom of each waypoint.
pub open spec fn plan_of<A>(bounds: Seq<WaypointBounds<A>>) -> Seq<Seq<(Dof, A)>> {
    Seq::new(bounds.len(), |i: int| spec_optimizable_dofs(bounds[i]))
}

/// Net offsets of zero for every degree of freedom of `plan`.
pub open spec fn zero_offsets<A>(plan: Seq<Seq<(Dof, A)>>) -> Seq<Seq<int>> {
    Seq::new(plan.len(), |i: int| Seq::new(plan[i].len(), |k: int| 0int))
}

/// The state in which a search over `bounds` starts.
pub open spec fn initial<A>(bounds: Seq<WaypointBounds<A>>) -> DescentState<A> {
    DescentState {
        plan: plan_of(bounds),
        offsets: zero_offsets(plan_of(bounds)),
        sweep: 0,
        waypoint: 0,
        mv: 0,
        improved: false,
        phase: if bounds.len() == 0 {
            Phase::Finished
        } else {
            Phase::CheckCancel
        },
    }
}

/// Twice the number of degrees of freedom of the waypoints from `j` on: the
/// most evaluations a sweep makes from waypoint `j`.
pub open spec fn evaluations_from<A>(plan: Seq<Seq<(Dof, A)>>, j: int) -> int
    decreases plan.len() - j,
{
    if j < 0 || j >= plan.len() {
        0
    } else {
        2 * plan[j].len() + evaluations_from(plan, j + 1)
    }
}

/// The most actions a sweep asks for from waypoint `j` on: one cancellation
/// check per waypoint and two evaluations per degree of freedom.
pub open spec fn actions_from<A>(plan: Seq<Seq<(Dof, A)>>, j: int) -> int
    decreases plan.len() - j,
{
    if j < 0 || j >= plan.len() {
        0
    } else {
        1 + 2 * plan[j].len() + actions_from(plan, j + 1)
    }
}

impl<A> DescentState<A> {
    /// The search has not ended.
    pub open spec fn running(self) -> bool {
        self.phase is CheckCancel || self.phase is Evaluate
    }

    /// The number of moves of waypoint `w`: two per degree of freedom.
    pub open spec fn moves(self, w: int) -> int {
        2 * (self.plan[w].len() as int)
    }

    /// Move `m` of waypoint `w` keeps its degree of freedom within its bound.
    pub open spec fn allowed(self, w: int, m: int) -> bool {
        move_allowed(self.offsets, w, m)
    }

    /// The first allowed move of waypoint `w` from move `m` on.
    pub open spec fn first_allowed_from(self, w: int, m: int) -> int {
        first_allowed(self.offsets, self.moves(w), w, m)
    }

    /// The indices of the state lie within its plan, every net offset lies in
    /// `-1..=1`, and the pending move keeps it there.
    pub open spec fn wf(self) -> bool {
        &&& self.plan.len() <= usize::MAX
        &&& self.sweep < MAX_SWEEPS
        &&& self.offsets.len() == self.plan.len()
        &&& forall|i: int|
            0 <= i < self.plan.len() ==> #[trigger] self.plan[i].len() <= 3
                && self.offsets[i].len() == self.plan[i].len()
        &&& forall|i: int, k: int|
            0 <= i < self.plan.len() && 0 <= k < self.plan[i].len() ==> -1 <= #[trigger] self.offsets[i][k]
                <= 1
        &&& self.running() ==> self.waypoint < self.plan.len()
        &&& self.phase is Evaluate ==> self.mv < self.moves(self.waypoint as int) && self.allowed(
            self.waypoint as int,
            self.mv as int,
        )
    }

    /// `e` answers the action that the state asks for.
    pub open spec fn answers(self, e: Event) -> bool {
        ||| self.phase is CheckCancel && (e is Continue || e is Canceled)
        ||| self.phase is Evaluate && e is Evaluated
    }

    /// The action the search asks for in this state.
    pub open spec fn action(self) -> Action<A> {
        match self.phase {
            Phase::CheckCancel => Action::CheckCancel { waypoint: self.waypoint as usize },
            Phase::Evaluate => Action::Evaluate {
                sweep: self.sweep as usize,
                waypoint: self.waypoint as usize,
                dof: self.plan[self.waypoint as int][(self.mv / 2) as int].0,
                amount: self.plan[self.waypoint as int][(self.mv / 2) as int].1,
                sign: move_sign(self.mv as int),
            },
            Phase::Finished => Action::Finish,
            Phase::Canceled => Action::Cancel,
        }
    }

    /// Leave the current waypoint: visit the next one, start another sweep
    /// after an improving sweep while sweeps remain, or finish.
    pub open spec fn after_waypoint(self) -> Self {
        if self.waypoint + 1 < self.plan.len() {
            DescentState { waypoint: self.waypoint + 1, phase: Phase::CheckCancel, ..self }
        } else if self.improved && self.sweep + 1 < MAX_SWEEPS {
            DescentState {
                sweep: self.sweep + 1,
                waypoint: 0,
                improved: false,
                phase: Phase::CheckCancel,
                ..self
            }
        } else {
            DescentState { phase: Phase::Finished, ..self }
        }
    }

    /// Go on with move `m` of the current waypoint, or leave the waypoint when
    /// its moves are exhausted.
    pub open spec fn enter(self, m: int) -> Self {
        if m < self.moves(self.waypoint as int) {
            DescentState { phase: Phase::Evaluate, mv: m as nat, ..self }
        } else {
            self.after_waypoint()
        }
    }

    /// The net offsets after the pending move was kept.
    pub open spec fn kept_offsets(self) -> Seq<Seq<int>> {
        let w = self.waypoint as int;
        let k = (self.mv / 2) as int;
        self.offsets.update(w, self.offsets[w].update(k, self.offsets[w][k] + unit(move_sign(self.mv as int))))
    }

    /// The state once the outcome of the pending evaluation is recorded: the
    /// move is kept (its sign added to the net offset) when it improved.
    pub open spec fn record(self, improved: bool) -> Self {
        DescentState {
            offsets: if improved {
                self.kept_offsets()
            } else {
                self.offsets
            },
            improved: self.improved || improved,
            ..self
        }
    }

    /// The state after event `e`. An event that does not answer the pending
    /// action leaves the state unchanged.
    pub open spec fn step(self, e: Event) -> Self {
        match self.phase {
            Phase::CheckCancel => match e {
                Event::Canceled => DescentState { phase: Phase::Canceled, ..self },
                Event::Continue => self.enter(self.first_allowed_from(self.waypoint as int, 0)),
                Event::Evaluated { .. } => self,
            },
            Phase::Evaluate => match e {
                Event::Evaluated { improved } => {
                    let s = self.record(improved);
                    s.enter(s.first_allowed_from(self.waypoint as int, self.mv as int + 1))
                },
                _ => self,
            },
            _ => self,
        }
    }

    /// The state after the events `events`, in order.
    pub open spec fn run(self, events: Seq<Event>) -> Self
        decreases events.len(),
    {
        if events.len() == 0 {
            self
        } else {
            self.step(events[0]).run(events.drop_first())
        }
    }

    /// How many candidates are evaluated while the events `events` are handled.
    pub open spec fn evaluations_in_run(self, events: Seq<Event>) -> int
        decreases events.len(),
    {
        if events.len() == 0 {
            0
        } else {
            (if self.phase is Evaluate && events[0] is Evaluated {
                1int
            } else {
                0int
            }) + self.step(events[0]).evaluations_in_run(events.drop_first())
        }
    }

    /// The evaluation actions answered while the events `events` are handled.
    pub open spec fn evaluated_in_run(self, events: Seq<Event>) -> Set<Action<A>>
        decreases events.len(),
    {
        if events.len() == 0 {
            Set::empty()
        } else {
            let here = if self.phase is Evaluate && events[0] is Evaluated {
                set![self.action()]
            } else {
                Set::empty()
            };
            here.union(self.step(events[0]).evaluated_in_run(events.drop_first()))
        }
    }

    /// The sum of the signs of the evaluation actions for degree of freedom
    /// `d` of waypoint `w` that are kept (answered as improvements) while the
    /// events `events` are handled.
    pub open spec fn kept_in_run(self, events: Seq<Event>, w: nat, d: Dof) -> int
        decreases events.len(),
    {
        if events.len() == 0 {
            0
        } else {
            (if events[0] == (Event::Evaluated { improved: true }) {
                kept_sign(self.action(), w, d)
            } else {
                0int
            }) + self.step(events[0]).kept_in_run(events.drop_first(), w, d)
        }
    }

    /// How many actions are performed (events that answer the pending action)
    /// while the events `events` are handled.
    pub open spec fn actions_in_run(self, events: Seq<Event>) -> int
        decreases events.len(),
    {
        if events.len() == 0 {
            0
        } else {
            (if self.answers(events[0]) {
                1int
            } else {
                0int
            }) + self.step(events[0]).actions_in_run(events.drop_first())
        }
    }

    /// An upper bound on the evaluations left in the current sweep.
    pub open spec fn sweep_evaluations_left(self) -> int {
        match self.phase {
            Phase::CheckCancel => evaluations_from(self.plan, self.waypoint as int),
            Phase::Evaluate => evaluations_from(self.plan, self.waypoint as int + 1) + self.moves(
                self.waypoint as int,
            ) - self.mv,
            _ => 0,
        }
    }

    /// An upper bound on the evaluations the search still makes.
    pub open spec fn evaluations_left(self) -> int {
        if self.running() {
            (MAX_SWEEPS - 1 - self.sweep) * evaluations_from(self.plan, 0)
                + self.sweep_evaluations_left()
        } else {
            0
        }
    }

    /// An upper bound on the actions left in the current sweep.
    pub open spec fn sweep_actions_left(self) -> int {
        match self.phase {
            Phase::CheckCancel => actions_from(self.plan, self.waypoint as int),
            Phase::Evaluate => actions_from(self.plan, self.waypoint as int + 1) + self.moves(
                self.waypoint as int,
            ) - self.mv,
            _ => 0,
        }
    }

    /// An upper bound on the actions the search still asks for.
    pub open spec fn actions_left(self) -> int {
        if self.running() {
            (MAX_SWEEPS - 1 - self.sweep) * actions_from(self.plan, 0) + self.sweep_actions_left()
        } else {
            0
        }
    }
}

#[derive(Debug, Clone, Copy)]
struct Cursor {
    sweep: usize,
    waypoint: usize,
    mv: usize,
    improved: bool,
    phase: Phase,
}

/// A coordinate-descent search over the waypoints of a trajectory.
#[derive(Debug)]
pub struct Descent<A> {
    plan: Vec<Vec<(Dof, A)>>,
    offsets: Vec<Vec<i8>>,
    cursor: Cursor,
}

spec fn plan_view<A>(plan: Seq<Vec<(Dof, A)>>) -> Seq<Seq<(Dof, A)>> {
    plan.map_values(|v: Vec<(Dof, A)>| v@)
}

spec fn row_view(row: Seq<i8>) -> Seq<int> {
    row.map_values(|x: i8| x as int)
}

spec fn offsets_view(offsets: Seq<Vec<i8>>) -> Seq<Seq<int>> {
    offsets.map_values(|r: Vec<i8>| row_view(r@))
}

spec fn state_of<A>(plan: Seq<Vec<(Dof, A)>>, offsets: Seq<Vec<i8>>, c: Cursor) -> DescentState<A> {
    DescentState {
        plan: plan_view(plan),
        offsets: offsets_view(offsets),
        sweep: c.sweep as nat,
        waypoint: c.waypoint as nat,
        mv: c.mv as nat,
        improved: c.improved,
        phase: c.phase,
    }
}

impl<A> View for Descent<A> {
    type V = DescentState<A>;

    closed spec fn view(&self) -> DescentState<A> {
        state_of(self.plan@, self.offsets@, self.cursor)
    }
}

impl<A> Descent<A> {
    #[verifier::type_invariant]
    spec fn inv(self) -> bool {
        self@.wf()
    }
}

/// What the first allowed move from `m` is: no earlier move from `m` on is
/// allowed, and it is allowed unless it is past the last move.
pub proof fn lemma_first_allowed_facts<A>(s: DescentState<A>, w: int, m: int)
    requires
        0 <= m <= s.moves(w),
    ensures
        m <= s.first_allowed_from(w, m) <= s.moves(w),
        s.first_allowed_from(w, m) < s.moves(w) ==> s.allowed(w, s.first_allowed_from(w, m)),
        forall|j: int| m <= j < s.first_allowed_from(w, m) ==> !s.allowed(w, j),
    decreases s.moves(w) - m,
{
    if m < s.moves(w) && !s.allowed(w, m) {
        lemma_first_allowed_facts(s, w, m + 1);
    }
}

/// A step keeps a state well formed and never changes its plan.
pub proof fn lemma_step_keeps_wf<A>(s: DescentState<A>, e: Event)
    requires
        s.wf(),
    ensures
        s.step(e).wf(),
        s.step(e).plan == s.plan,
{
    let w = s.waypoint as int;
    if s.phase is CheckCancel && e is Continue {
        lemma_first_allowed_facts(s, w, 0);
    }
    if s.phase is Evaluate && e is Evaluated {
        let st = s.record(e->improved);
        let k = (s.mv / 2) as int;
        assert(st.offsets.len() == st.plan.len());
        assert forall|i: int| 0 <= i < st.plan.len() implies #[trigger] st.plan[i].len() <= 3
            && st.offsets[i].len() == st.plan[i].len() by {
            assert(s.plan[i].len() <= 3);
        }
        assert forall|i: int, j: int|
            0 <= i < st.plan.len() && 0 <= j < st.plan[i].len() implies -1 <= #[trigger] st.offsets[i][j]
            <= 1 by {
            assert(-1 <= s.offsets[i][j] <= 1);
        }
        lemma_first_allowed_facts(st, w, s.mv as int + 1);
    }
}

/// Whether move `m` of waypoint `w` keeps its degree of freedom within its bound.
fn is_allowed(offsets: &Vec<Vec<i8>>, w: usize, m: usize) -> (r: bool)
    requires
        w < offsets@.len(),
        m / 2 < offsets@[w as int]@.len(),
        -1 <= offsets@[w as int]@[(m / 2) as int] <= 1,
    ensures
        r == move_allowed(offsets_view(offsets@), w as int, m as int),
{
    let o = offsets[w][m / 2];
    if m % 2 == 0 {
        o < 1
    } else {
        o > -1
    }
}

proof fn lemma_first_allowed_is<A>(s: DescentState<A>, w: int, m: int, r: int)
    requires
        0 <= m <= r <= s.moves(w),
        forall|j: int| m <= j < r ==> !s.allowed(w, j),
        r < s.moves(w) ==> s.allowed(w, r),
    ensures
        s.first_allowed_from(w, m) == r,
    decreases r - m,
{
    if m < r {
        assert(!s.allowed(w, m));
        lemma_first_allowed_is(s, w, m + 1, r);
    }
}

/// The first allowed move of waypoint `w` from move `start` on, or the number
/// of its moves when there is none.
fn find_allowed<A>(
    plan: &Vec<Vec<(Dof, A)>>,
    offsets: &Vec<Vec<i8>>,
    c: Cursor,
    start: usize,
) -> (m: usize)
    requires
        c.waypoint < plan@.len(),
        offsets@.len() == plan@.len(),
        plan@[c.waypoint as int]@.len() <= 3,
        offsets@[c.waypoint as int]@.len() == plan@[c.waypoint as int]@.len(),
        forall|k: int|
            0 <= k < plan@[c.waypoint as int]@.len() ==> -1 <= #[trigger] offsets@[c.waypoint as int]@[k] <= 1,
        start <= 2 * plan@[c.waypoint as int]@.len(),
    ensures
        m == state_of(plan@, offsets@, c).first_allowed_from(c.waypoint as int, start as int),
{
    let ghost s = state_of(plan@, offsets@, c);
    let w = c.waypoint;
    assert(s.plan[w as int] == plan@[w as int]@);
    assert(s.offsets[w as int] == row_view(offsets@[w as int]@));
    assert(s.moves(w as int) == 2 * plan@[w as int]@.len());
    let moves = 2 * plan[w].len();
    let mut m = start;
    while m < moves && !is_allowed(offsets, w, m)
        invariant
            start <= m <= moves,
            moves == s.moves(w as int),
            s == state_of(plan@, offsets@, c),
            w < plan@.len(),
            offsets@.len() == plan@.len(),
            moves == 2 * plan@[w as int]@.len(),
            w == c.waypoint,
            offsets@[w as int]@.len() == plan@[w as int]@.len(),
            forall|k: int|
                0 <= k < plan@[w as int]@.len() ==> -1 <= #[trigger] offsets@[w as int]@[k] <= 1,
            s.offsets[w as int] == row_view(offsets@[w as int]@),
            forall|j: int| start <= j < m ==> !s.allowed(w as int, j),
        decreases moves - m,
    {
        m = m + 1;
    }
    proof {
        lemma_first_allowed_is(s, w as int, start as int, m as int);
    }
    m
}

/// `row` with entry `k` moved by `delta`.
fn bumped(row: &Vec<i8>, k: usize, delta: i8) -> (r: Vec<i8>)
    requires
        k < row@.len(),
        -1 <= row@[k as int] + delta <= 1,
    ensures
        row_view(r@) == row_view(row@).update(k as int, row@[k as int] + delta),
{
    let mut r: Vec<i8> = Vec::new();
    let n = row.len();
    for j in 0..n
        invariant
            n == row@.len(),
            k < n,
            -1 <= row@[k as int] + delta <= 1,
            r@.len() == j,
            forall|i: int| 0 <= i < j ==> #[trigger] r@[i] == if i == k {
                (row@[k as int] + delta) as i8
            } else {
                row@[i]
            },
    {
        if j == k {
            r.push(row[j] + delta);
        } else {
            r.push(row[j]);
        }
    }
    assert(row_view(r@) =~= row_view(row@).update(k as int, row@[k as int] + delta));
    r
}

fn after_waypoint(n: usize, c: Cursor) -> (r: Cursor)
    requires
        c.waypoint < n,
        c.sweep < MAX_SWEEPS,
    ensures
        r.waypoint < n || !(r.phase is CheckCancel || r.phase is Evaluate),
        r.sweep < MAX_SWEEPS,
        r == (if c.waypoint + 1 < n {
            Cursor { waypoint: (c.waypoint + 1) as usize, phase: Phase::CheckCancel, ..c }
        } else if c.improved && c.sweep + 1 < MAX_SWEEPS {
            Cursor {
                sweep: (c.sweep + 1) as usize,
                waypoint: 0,
                improved: false,
                phase: Phase::CheckCancel,
                ..c
            }
        } else {
            Cursor { phase: Phase::Finished, ..c }
        }),
{
    if c.waypoint < n - 1 {
        Cursor { waypoint: c.waypoint + 1, phase: Phase::CheckCancel, ..c }
    } else if c.improved && c.sweep + 1 < MAX_SWEEPS {
        Cursor { sweep: c.sweep + 1, waypoint: 0, improved: false, phase: Phase::CheckCancel, ..c }
    } else {
        Cursor { phase: Phase::Finished, ..c }
    }
}

impl<A: Copy> Descent<A> {
    /// Starts a search over the waypoints whose bounds are `waypoints`.
    pub fn new(waypoints: &[WaypointBounds<A>]) -> (d: Self)
        ensures
            d@ == initial(waypoints@),
    {
        let n = waypoints.len();
        let mut plan: Vec<Vec<(Dof, A)>> = Vec::new();
        let mut offsets: Vec<Vec<i8>> = Vec::new();
        for i in 0..n
            invariant
                n == waypoints@.len(),
                plan@.len() == i,
                offsets@.len() == i,
                forall|k: int| 0 <= k < i ==> #[trigger] plan@[k]@ == spec_optimizable_dofs(
                    waypoints@[k],
                ),
                forall|k: int|
                    0 <= k < i ==> #[trigger] row_view(offsets@[k]@) == Seq::new(
                        plan@[k]@.len(),
                        |j: int| 0int,
                    ),
        {
            let dofs = optimizable_dofs(waypoints, i);
            let mut zeros: Vec<i8> = Vec::new();
            for j in 0..dofs.len()
                invariant
                    zeros@.len() == j,
                    forall|q: int| 0 <= q < j ==> #[trigger] zeros@[q] == 0,
            {
                zeros.push(0);
            }
            assert(row_view(zeros@) =~= Seq::new(dofs@.len(), |j: int| 0int));
            plan.push(dofs);
            offsets.push(zeros);
        }
        let phase = if n == 0 {
            Phase::Finished
        } else {
            Phase::CheckCancel
        };
        let cursor = Cursor { sweep: 0, waypoint: 0, mv: 0, improved: false, phase };
        proof {
            assert(plan_view(plan@) =~= plan_of(waypoints@));
            assert(offsets_view(offsets@) =~= zero_offsets(plan_of(waypoints@)));
            assert forall|i: int| 0 <= i < plan_of(waypoints@).len() implies #[trigger] plan_of(
                waypoints@,
            )[i].len() <= 3 by {
                crate::dof::lemma_optimizable_dofs_len(waypoints@[i]);
            }
        }
        Descent { plan, offsets, cursor }
    }

    /// The action the search asks for next.
    pub fn action(&self) -> (a: Action<A>)
        ensures
            a == self@.action(),
    {
        proof {
            use_type_invariant(self);
        }
        let c = self.cursor;
        match c.phase {
            Phase::CheckCancel => Action::CheckCancel { waypoint: c.waypoint },
            Phase::Evaluate => {
                proof {
                    assert(self@.plan[c.waypoint as int] == self.plan@[c.waypoint as int]@);
                }
                let (dof, amount) = self.plan[c.waypoint][c.mv / 2];
                let sign = if c.mv % 2 == 0 {
                    Sign::Plus
                } else {
                    Sign::Minus
                };
                Action::Evaluate { sweep: c.sweep, waypoint: c.waypoint, dof, amount, sign }
            },
            Phase::Finished => Action::Finish,
            Phase::Canceled => Action::Cancel,
        }
    }

    /// Hands the outcome `e` of the pending action to the search and returns
    /// the search as it stands after it.
    pub fn step(self, e: Event) -> (next: Self)
        ensures
            next@ == self@.step(e),
    {
        proof {
            use_type_invariant(&self);
        }
        let ghost s = self@;
        let Descent { plan, offsets, cursor: c } = self;
        let n = plan.len();
        match c.phase {
            Phase::CheckCancel => match e {
                Event::Canceled => Descent { plan, offsets, cursor: Cursor { phase: Phase::Canceled, ..c } },
                Event::Continue => {
                    proof {
                        lemma_step_keeps_wf(s, e);
                        assert(s.plan[c.waypoint as int] == plan@[c.waypoint as int]@);
                        assert(s.offsets[c.waypoint as int] == row_view(offsets@[c.waypoint as int]@));
                        assert forall|k: int| 0 <= k < plan@[c.waypoint as int]@.len() implies -1
                            <= #[trigger] offsets@[c.waypoint as int]@[k] <= 1 by {
                            assert(s.offsets[c.waypoint as int][k] == offsets@[c.waypoint as int]@[k]);
                        }
                    }
                    let m = find_allowed(&plan, &offsets, c, 0);
                    let cursor = if m < 2 * plan[c.waypoint].len() {
                        Cursor { phase: Phase::Evaluate, mv: m, ..c }
                    } else {
                        after_waypoint(n, c)
                    };
                    proof {
                        assert(s.plan[c.waypoint as int] == plan@[c.waypoint as int]@);
                        assert(state_of(plan@, offsets@, cursor) == s.step(e));
                    }
                    Descent { plan, offsets, cursor }
                },
                Event::Evaluated { .. } => Descent { plan, offsets, cursor: c },
            },
            Phase::Evaluate => match e {
                Event::Evaluated { improved } => {
                    let w = c.waypoint;
                    proof {
                        lemma_step_keeps_wf(s, e);
                        assert(s.plan[w as int] == plan@[w as int]@);
                        assert(s.offsets[w as int] == row_view(offsets@[w as int]@));
                    }
                    let mut offsets = offsets;
                    if improved {
                        let delta: i8 = if c.mv % 2 == 0 {
                            1
                        } else {
                            -1
                        };
                        let row = bumped(&offsets[w], c.mv / 2, delta);
                        offsets.set(w, row);
                        proof {
                            assert(offsets_view(offsets@) =~= s.kept_offsets());
                        }
                    }
                    let t = Cursor { improved: c.improved || improved, ..c };
                    let ghost st = s.record(improved);
                    proof {
                        assert(state_of(plan@, offsets@, t) == st);
                        assert(st.offsets[w as int] == row_view(offsets@[w as int]@));
                        assert forall|k: int| 0 <= k < plan@[w as int]@.len() implies -1
                            <= #[trigger] offsets@[w as int]@[k] <= 1 by {
                            assert(st.offsets[w as int][k] == offsets@[w as int]@[k]);
                            assert(-1 <= s.offsets[w as int][k] <= 1);
                        }
                    }
                    let m = find_allowed(&plan, &offsets, t, c.mv + 1);
                    let cursor = if m < 2 * plan[w].len() {
                        Cursor { phase: Phase::Evaluate, mv: m, ..t }
                    } else {
                        after_waypoint(n, t)
                    };
                    proof {
                        assert(state_of(plan@, offsets@, cursor) == s.step(e));
                    }
                    Descent { plan, offsets, cursor }
                },
                _ => Descent { plan, offsets, cursor: c },
            },
            _ => Descent { plan, offsets, cursor: c },
        }
    }
}

} // verus!
