# choreo_optimize

Local optimization of a trajectory by perturbing waypoint poses within
per-waypoint bounds, as a coordinate descent that stops at a local minimum of
the total trajectory time.

- `src/` is the library, verified with Verus:
  - `dof.rs`: degrees of freedom, bounds, and which of them may be perturbed;
  - `descent.rs`: the search as a state machine that asks for cancellation
    checks and candidate evaluations and decides when sweeps and the search end;
  - `laws.rs`: what holds of every run of the search (termination, the bound
    on generations, moves tried in order, only fixed waypoints move, each
    degree of freedom stays within its bound of the starting pose, and a
    search that converges ends at a local minimum within the bounds);
  - `unit.rs`: keeping the unit of a perturbed expression (with `regex`);
  - `progress.rs`: the progress messages and their channel.
- `app/` runs the search: trajectory files, floating-point pose arithmetic,
  the trajectory generator, cancellation (`tokio` oneshot) and logging.
- `tests/` exercises the library.
