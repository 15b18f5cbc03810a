//! Laws on the plans of `plan_trajectory`: what every command of a plan
//! must satisfy, stated over the path, the constraints and the obstacles.

use vstd::prelude::*;
use crate::trajectory::{
    all_constraint_commands, constraint_commands, guess_indices, obstacle_commands,
    pending_start, plan_commands, straight_line_commands, waypoint_commands, waypoint_step,
    waypoints_before, fixed, lemma_fix_scope_counts_waypoints, lemma_guess_indices,
    ChoreoConstraintScope, ChoreoWaypoint, Constraints, PathCommand, VelocityBound,
};

verus! {

/// The commands that declare waypoints and their guess points.
pub open spec fn is_waypoint_phase_command(c: PathCommand) -> bool {
    ||| c is SgmtInitialGuessPoints
    ||| c is PoseWpt
    ||| c is TranslationWpt
    ||| c is EmptyWpt
}

/// The commands that constraints produce.
pub open spec fn is_constraint_phase_command(c: PathCommand) -> bool {
    ||| c is WptLinearVelocityDirection
    ||| c is WptLinearVelocityMaxMagnitude
    ||| c is WptAngularVelocity
    ||| c is SgmtLinearVelocityMaxMagnitude
    ||| c is SgmtAngularVelocity
    ||| c is SgmtLinearVelocityDirection
    ||| c is WptPointAt
    ||| c is SgmtPointAt
}

/// The run of initial-guess entries that ends at entry `m` starts just
/// after a true waypoint (or at the path's start) and holds only guesses.
pub proof fn lemma_pending_start(path: Seq<ChoreoWaypoint>, m: nat)
    requires
        m <= path.len(),
    ensures
        pending_start(path, m) <= m,
        forall|i: int| pending_start(path, m) <= i < m ==> #[trigger] path[i].is_initial_guess,
        pending_start(path, m) > 0 ==> !path[pending_start(path, m) - 1].is_initial_guess,
        pending_start(path, m) == 0 ==> waypoints_before(path, m) == 0,
        waypoints_before(path, pending_start(path, m)) == waypoints_before(path, m),
    decreases m,
{
    if m > 0 {
        lemma_pending_start(path, (m - 1) as nat);
    }
}

/// What the guess-point commands among the waypoint commands of the first
/// `m` entries satisfy.
proof fn lemma_guess_commands_prefix(path: Seq<ChoreoWaypoint>, m: nat)
    requires
        m <= path.len(),
        path.len() <= usize::MAX,
    ensures
        forall|k: int|
            0 <= k < waypoint_commands(path, m).len() ==> is_waypoint_phase_command(
                #[trigger] waypoint_commands(path, m)[k],
            ),
        forall|k: int|
            0 <= k < waypoint_commands(path, m).len() ==> (#[trigger] waypoint_commands(path, m)[k]
            matches PathCommand::SgmtInitialGuessPoints { from_wpt, first_guess, end_guess } ==> {
                &&& end_guess < m
                &&& !path[end_guess as int].is_initial_guess
                &&& from_wpt + 1 == waypoints_before(path, end_guess as nat)
                &&& 0 < first_guess <= end_guess
                &&& !path[first_guess - 1].is_initial_guess
                &&& forall|i: int| first_guess <= i < end_guess ==> #[trigger] path[i].is_initial_guess
            }),
    decreases m,
{
    if m > 0 {
        let j = (m - 1) as nat;
        lemma_guess_commands_prefix(path, j);
        lemma_pending_start(path, j);
        lemma_guess_indices(path, j);
        let prev = waypoint_commands(path, j);
        let cur = waypoint_commands(path, m);
        if !path[j as int].is_initial_guess {
            let step = waypoint_step(path, j);
            assert forall|k: int| 0 <= k < cur.len() implies is_waypoint_phase_command(
                #[trigger] cur[k],
            ) by {
                if k >= prev.len() {
                    assert(cur[k] == step[k - prev.len()]);
                }
            }
            assert forall|k: int| 0 <= k < cur.len() implies (#[trigger] cur[k]
            matches PathCommand::SgmtInitialGuessPoints { from_wpt, first_guess, end_guess } ==> {
                &&& end_guess < m
                &&& !path[end_guess as int].is_initial_guess
                &&& from_wpt + 1 == waypoints_before(path, end_guess as nat)
                &&& 0 < first_guess <= end_guess
                &&& !path[first_guess - 1].is_initial_guess
                &&& forall|i: int| first_guess <= i < end_guess ==> #[trigger] path[i].is_initial_guess
            }) by {
                if k >= prev.len() {
                    assert(cur[k] == step[k - prev.len()]);
                } else {
                    assert(cur[k] == prev[k]);
                }
            }
        }
    }
}

/// Law: every guess-point command of a plan belongs to the segment that
/// ends at a true waypoint `end_guess` (the segment's number is one less
/// than that waypoint's), and covers exactly the initial-guess entries
/// between the previous true waypoint (at `first_guess - 1`) and that one.
pub proof fn lemma_guess_points_between_waypoints(
    path: Seq<ChoreoWaypoint>,
    cs: Seq<Constraints>,
    circles: nat,
    polygons: nat,
    p: int,
)
    requires
        path.len() <= usize::MAX,
        0 <= p < plan_commands(path, cs, circles, polygons).len(),
        plan_commands(path, cs, circles, polygons)[p] is SgmtInitialGuessPoints,
    ensures
        plan_commands(path, cs, circles, polygons)[p] matches PathCommand::SgmtInitialGuessPoints {
            from_wpt,
            first_guess,
            end_guess,
        } ==> {
            &&& end_guess < path.len()
            &&& !path[end_guess as int].is_initial_guess
            &&& from_wpt + 1 == waypoints_before(path, end_guess as nat)
            &&& 0 < first_guess <= end_guess
            &&& !path[first_guess - 1].is_initial_guess
            &&& forall|i: int| first_guess <= i < end_guess ==> #[trigger] path[i].is_initial_guess
        },
{
    let n = path.len();
    lemma_guess_commands_prefix(path, n);
    lemma_constraint_phase(cs, cs.len(), guess_indices(path, n));
    let w = waypoint_commands(path, n);
    let c = all_constraint_commands(cs, cs.len(), guess_indices(path, n));
    let o = obstacle_commands(circles, polygons, (waypoints_before(path, n) - 1) as usize);
    let plan = plan_commands(path, cs, circles, polygons);
    if p < w.len() {
        assert(plan[p] == w[p]);
    } else if p == w.len() {
    } else if p < w.len() + 1 + c.len() {
        assert(plan[p] == c[p - w.len() - 1]);
        assert(is_constraint_phase_command(c[p - w.len() - 1]));
    } else if p == w.len() + 1 + c.len() {
    } else if p < w.len() + 2 + c.len() + o.len() {
        assert(plan[p] == o[p - w.len() - 2 - c.len()]);
    }
}

/// Law: every true waypoint after the first gets, before its declaration,
/// the guess points of the segment that ends at it.
pub proof fn lemma_every_segment_gets_guess_points(
    path: Seq<ChoreoWaypoint>,
    cs: Seq<Constraints>,
    circles: nat,
    polygons: nat,
    j: nat,
)
    requires
        path.len() <= usize::MAX,
        j < path.len(),
        !path[j as int].is_initial_guess,
        waypoints_before(path, j) > 0,
    ensures
        exists|p: int|
            0 <= p < plan_commands(path, cs, circles, polygons).len() && (#[trigger] plan_commands(
                path,
                cs,
                circles,
                polygons,
            )[p] matches PathCommand::SgmtInitialGuessPoints { from_wpt, end_guess, .. }
                && from_wpt + 1 == waypoints_before(path, j) && end_guess == j),
{
    let n = path.len();
    lemma_guess_indices(path, j);
    crate::trajectory::lemma_waypoint_commands_prefix(path, (j + 1) as nat, n);
    let pre = waypoint_commands(path, j);
    let pre1 = waypoint_commands(path, (j + 1) as nat);
    let p = pre.len() as int;
    let f = pending_start(path, j) as usize;
    assert(pre1[p] == waypoint_step(path, j)[0]);
    let plan = plan_commands(path, cs, circles, polygons);
    assert(plan[p] == waypoint_commands(path, n)[p]);
    assert(plan[p] == (PathCommand::SgmtInitialGuessPoints {
        from_wpt: (waypoints_before(path, j) - 1) as usize,
        first_guess: f,
        end_guess: j as usize,
    }));
}

/// Commands of a straight line are constraint commands.
proof fn lemma_straight_line_phase(start: usize, end: int, removed: Seq<usize>)
    ensures
        forall|k: int|
            0 <= k < straight_line_commands(start, end, removed).len()
                ==> is_constraint_phase_command(#[trigger] straight_line_commands(start, end, removed)[k]),
    decreases end - start,
{
    if end > start {
        lemma_straight_line_phase(start, end - 1, removed);
        let cur = straight_line_commands(start, end, removed);
        assert forall|k: int| 0 <= k < cur.len() implies is_constraint_phase_command(
            #[trigger] cur[k],
        ) by {
            let prev = straight_line_commands(start, end - 1, removed);
            if k < prev.len() {
                assert(cur[k] == prev[k]);
            }
        }
    }
}

/// The commands of the first `m` constraints are all constraint commands.
pub proof fn lemma_constraint_phase(cs: Seq<Constraints>, m: nat, removed: Seq<usize>)
    ensures
        forall|k: int|
            0 <= k < all_constraint_commands(cs, m, removed).len()
                ==> is_constraint_phase_command(#[trigger] all_constraint_commands(cs, m, removed)[k]),
    decreases m,
{
    if m > 0 {
        lemma_constraint_phase(cs, (m - 1) as nat, removed);
        let c = cs[m - 1];
        match c {
            Constraints::StraightLine { scope } => match scope {
                ChoreoConstraintScope::Segment(a, b) => lemma_straight_line_phase(a, b as int, removed),
                _ => {},
            },
            _ => {},
        }
        let prev = all_constraint_commands(cs, (m - 1) as nat, removed);
        let block = constraint_commands(c, (m - 1) as usize, removed);
        let cur = all_constraint_commands(cs, m, removed);
        assert forall|k: int| 0 <= k < cur.len() implies is_constraint_phase_command(
            #[trigger] cur[k],
        ) by {
            if k < prev.len() {
                assert(cur[k] == prev[k]);
            } else {
                assert(cur[k] == block[k - prev.len()]);
            }
        }
    }
}

/// The commands of constraint `ci` follow those of the constraints before it.
proof fn lemma_constraint_block_prefix(cs: Seq<Constraints>, ci: nat, m: nat, removed: Seq<usize>)
    requires
        ci < m <= cs.len(),
    ensures
        all_constraint_commands(cs, ci, removed).len() + constraint_commands(
            cs[ci as int],
            ci as usize,
            removed,
        ).len() <= all_constraint_commands(cs, m, removed).len(),
        forall|k: int|
            0 <= k < constraint_commands(cs[ci as int], ci as usize, removed).len()
                ==> all_constraint_commands(cs, m, removed)[all_constraint_commands(cs, ci, removed).len()
                + k] == #[trigger] constraint_commands(cs[ci as int], ci as usize, removed)[k],
    decreases m,
{
    if m > ci + 1 {
        lemma_constraint_block_prefix(cs, ci, (m - 1) as nat, removed);
    }
}

/// `block` stands in `s` from position `p` on.
pub open spec fn stands_at(s: Seq<PathCommand>, block: Seq<PathCommand>, p: int) -> bool {
    &&& 0 <= p
    &&& p + block.len() <= s.len()
    &&& forall|k: int| 0 <= k < block.len() ==> s[p + k] == #[trigger] block[k]
}

/// Law: the commands of every constraint stand in the plan, in one piece.
pub proof fn lemma_constraint_block_in_plan(
    path: Seq<ChoreoWaypoint>,
    cs: Seq<Constraints>,
    circles: nat,
    polygons: nat,
    ci: nat,
)
    requires
        ci < cs.len(),
    ensures
        exists|p: int|
            #[trigger] stands_at(
                plan_commands(path, cs, circles, polygons),
                constraint_commands(cs[ci as int], ci as usize, guess_indices(path, path.len())),
                p,
            ),
{
    let removed = guess_indices(path, path.len());
    lemma_constraint_block_prefix(cs, ci, cs.len(), removed);
    let w = waypoint_commands(path, path.len());
    let p: int = (w.len() + 1 + all_constraint_commands(cs, ci, removed).len()) as int;
    let plan = plan_commands(path, cs, circles, polygons);
    let all = all_constraint_commands(cs, cs.len(), removed);
    let block = constraint_commands(cs[ci as int], ci as usize, removed);
    assert forall|k: int| 0 <= k < block.len() implies plan[p + k] == #[trigger] block[k] by {
        assert(plan[p + k] == all[p + k - w.len() - 1]);
    }
    assert(stands_at(plan, block, p));
}

/// The scope of a constraint.
pub open spec fn constraint_scope(c: Constraints) -> ChoreoConstraintScope {
    match c {
        Constraints::WptVelocityDirection { scope } => scope,
        Constraints::WptZeroVelocity { scope } => scope,
        Constraints::StopPoint { scope } => scope,
        Constraints::MaxVelocity { scope } => scope,
        Constraints::ZeroAngularVelocity { scope } => scope,
        Constraints::StraightLine { scope } => scope,
        Constraints::PointAt { scope } => scope,
    }
}

/// The waypoint number of path entry `q`: the count of true waypoints before it.
pub open spec fn waypoint_number(path: Seq<ChoreoWaypoint>, q: int) -> usize {
    waypoints_before(path, q as nat) as usize
}

/// Law: a constraint scoped at path entry `a` acts on waypoint number
/// `waypoint_number(path, a)`, the count of true waypoints before `a`, and
/// reads its numbers from itself (constraint `ci`): a direction gives that
/// direction, a zero velocity a zero bound, a stop point a zero bound and a
/// zero angular velocity on that same waypoint, a velocity limit its own
/// velocity, a zero angular velocity one zero angular velocity, a point-at
/// its own target; a straight line needs a segment and gives nothing.
pub proof fn lemma_waypoint_constraint_commands(
    path: Seq<ChoreoWaypoint>,
    c: Constraints,
    ci: usize,
    a: usize,
)
    requires
        path.len() <= usize::MAX,
        a <= path.len(),
        constraint_scope(c) == ChoreoConstraintScope::Waypoint(a),
    ensures
        ({
            let w = waypoint_number(path, a as int);
            let b = constraint_commands(c, ci, guess_indices(path, path.len()));
            match c {
                Constraints::WptVelocityDirection { .. } => b == seq![
                    PathCommand::WptLinearVelocityDirection { wpt: w, constraint: ci },
                ],
                Constraints::WptZeroVelocity { .. } => b == seq![
                    PathCommand::WptLinearVelocityMaxMagnitude { wpt: w, bound: VelocityBound::Zero },
                ],
                Constraints::StopPoint { .. } => b == seq![
                    PathCommand::WptLinearVelocityMaxMagnitude { wpt: w, bound: VelocityBound::Zero },
                    PathCommand::WptAngularVelocity { wpt: w },
                ],
                Constraints::MaxVelocity { .. } => b == seq![
                    PathCommand::WptLinearVelocityMaxMagnitude {
                        wpt: w,
                        bound: VelocityBound::OfConstraint(ci),
                    },
                ],
                Constraints::ZeroAngularVelocity { .. } => b == seq![
                    PathCommand::WptAngularVelocity { wpt: w },
                ],
                Constraints::StraightLine { .. } => b == Seq::<PathCommand>::empty(),
                Constraints::PointAt { .. } => b == seq![
                    PathCommand::WptPointAt { wpt: w, constraint: ci },
                ],
            }
        }),
{
    lemma_fix_scope_counts_waypoints(path, a as nat);
    let b = constraint_commands(c, ci, guess_indices(path, path.len()));
    assert(b =~= b);
}

/// Law: a constraint over the segment from path entry `a` to path entry `z`
/// acts on waypoint numbers `waypoint_number(path, a)` to
/// `waypoint_number(path, z)` and reads its numbers from itself; the kinds
/// that need a single waypoint give nothing.
pub proof fn lemma_segment_constraint_commands(
    path: Seq<ChoreoWaypoint>,
    c: Constraints,
    ci: usize,
    a: usize,
    z: usize,
)
    requires
        path.len() <= usize::MAX,
        a <= path.len(),
        z <= path.len(),
        constraint_scope(c) == ChoreoConstraintScope::Segment(a, z),
        !(c is StraightLine),
    ensures
        ({
            let from = waypoint_number(path, a as int);
            let to = waypoint_number(path, z as int);
            let b = constraint_commands(c, ci, guess_indices(path, path.len()));
            match c {
                Constraints::MaxVelocity { .. } => b == seq![
                    PathCommand::SgmtLinearVelocityMaxMagnitude {
                        from_wpt: from,
                        to_wpt: to,
                        constraint: ci,
                    },
                ],
                Constraints::ZeroAngularVelocity { .. } => b == seq![
                    PathCommand::SgmtAngularVelocity { from_wpt: from, to_wpt: to },
                ],
                Constraints::PointAt { .. } => b == seq![
                    PathCommand::SgmtPointAt { from_wpt: from, to_wpt: to, constraint: ci },
                ],
                _ => b == Seq::<PathCommand>::empty(),
            }
        }),
{
    lemma_fix_scope_counts_waypoints(path, a as nat);
    lemma_fix_scope_counts_waypoints(path, z as nat);
    let b = constraint_commands(c, ci, guess_indices(path, path.len()));
    assert(b =~= b);
}

/// The direction step of a straight line at path entry `q`: from waypoint
/// number of `q` to that of `q + 1`.
pub open spec fn line_direction(path: Seq<ChoreoWaypoint>, q: int) -> PathCommand {
    PathCommand::SgmtLinearVelocityDirection {
        from_wpt: waypoint_number(path, q),
        to_wpt: waypoint_number(path, q + 1),
    }
}

/// A stop at the waypoint number of path entry `q`.
pub open spec fn line_stop(path: Seq<ChoreoWaypoint>, q: int) -> PathCommand {
    PathCommand::WptLinearVelocityMaxMagnitude {
        wpt: waypoint_number(path, q),
        bound: VelocityBound::Zero,
    }
}

/// What the commands of a straight line from path entry `s` to `e` are:
/// direction steps and stops inside the line, never at its first waypoint.
pub open spec fn line_commands_valid(
    path: Seq<ChoreoWaypoint>,
    s: int,
    e: int,
    b: Seq<PathCommand>,
) -> bool {
    &&& forall|k: int|
        #![trigger b[k]]
        0 <= k < b.len() ==> (exists|q: int|
            s <= q < e && b[k] == #[trigger] line_direction(path, q)) || (exists|q: int|
            s < q < e && waypoint_number(path, q) != waypoint_number(path, s) && b[k]
                == #[trigger] line_stop(path, q))
    &&& forall|q: int|
        #![trigger line_direction(path, q)]
        s <= q < e ==> exists|k: int| 0 <= k < b.len() && #[trigger] b[k] == line_direction(path, q)
    &&& forall|q: int|
        #![trigger line_stop(path, q)]
        s < q < e && waypoint_number(path, q) != waypoint_number(path, s) ==> exists|k: int|
            0 <= k && k + 1 < b.len() && #[trigger] b[k] == line_stop(path, q) && b[k + 1]
                == line_direction(path, q)
}

/// One step of a straight line: the commands up to `e` are those up to
/// `e - 1`, a stop at `e - 1` when it is not the line's first waypoint, and
/// the direction step at `e - 1`.
proof fn lemma_straight_line_step(path: Seq<ChoreoWaypoint>, s: usize, e: int)
    requires
        path.len() <= usize::MAX,
        s < e <= path.len(),
    ensures
        straight_line_commands(s, e, guess_indices(path, path.len())) == straight_line_commands(
            s,
            e - 1,
            guess_indices(path, path.len()),
        ) + (if waypoint_number(path, e - 1) != waypoint_number(path, s as int) {
            seq![line_stop(path, e - 1)]
        } else {
            Seq::<PathCommand>::empty()
        }) + seq![line_direction(path, e - 1)],
{
    let removed = guess_indices(path, path.len());
    lemma_fix_scope_counts_waypoints(path, (e - 1) as nat);
    lemma_fix_scope_counts_waypoints(path, e as nat);
    lemma_fix_scope_counts_waypoints(path, s as nat);
    assert(fixed(e - 1, removed) == waypoint_number(path, e - 1));
    assert(fixed(e, removed) == waypoint_number(path, e));
    assert(fixed(s as int, removed) == waypoint_number(path, s as int));
}

proof fn lemma_straight_line_kinds(path: Seq<ChoreoWaypoint>, s: usize, e: int)
    requires
        path.len() <= usize::MAX,
        s <= e <= path.len(),
    ensures
        ({
            let b = straight_line_commands(s, e, guess_indices(path, path.len()));
            forall|k: int|
                #![trigger b[k]]
                0 <= k < b.len() ==> (exists|q: int|
                    s <= q < e && b[k] == #[trigger] line_direction(path, q)) || (exists|q: int|
                    s < q < e && waypoint_number(path, q) != waypoint_number(path, s as int) && b[k]
                        == #[trigger] line_stop(path, q))
        }),
    decreases e - s,
{
    if e > s {
        let removed = guess_indices(path, path.len());
        let q = e - 1;
        lemma_straight_line_kinds(path, s, q);
        lemma_straight_line_step(path, s, e);
        let prev = straight_line_commands(s, q, removed);
        let b = straight_line_commands(s, e, removed);
        assert forall|k: int| #![trigger b[k]] 0 <= k < b.len() implies (exists|r: int|
            s <= r < e && b[k] == #[trigger] line_direction(path, r)) || (exists|r: int|
            s < r < e && waypoint_number(path, r) != waypoint_number(path, s as int) && b[k]
                == #[trigger] line_stop(path, r)) by {
            if k < prev.len() {
                assert(b[k] == prev[k]);
            } else if k == b.len() - 1 {
                assert(b[k] == line_direction(path, q));
            } else {
                assert(b[k] == line_stop(path, q));
            }
        }
    }
}

proof fn lemma_straight_line_directions(path: Seq<ChoreoWaypoint>, s: usize, e: int)
    requires
        path.len() <= usize::MAX,
        s <= e <= path.len(),
    ensures
        ({
            let b = straight_line_commands(s, e, guess_indices(path, path.len()));
            forall|q: int|
                #![trigger line_direction(path, q)]
                s <= q < e ==> exists|k: int| 0 <= k < b.len() && #[trigger] b[k] == line_direction(path, q)
        }),
    decreases e - s,
{
    if e > s {
        let removed = guess_indices(path, path.len());
        let q = e - 1;
        lemma_straight_line_directions(path, s, q);
        lemma_straight_line_step(path, s, e);
        let prev = straight_line_commands(s, q, removed);
        let b = straight_line_commands(s, e, removed);
        assert forall|r: int| #![trigger line_direction(path, r)] s <= r < e implies exists|k: int|
            0 <= k < b.len() && #[trigger] b[k] == line_direction(path, r) by {
            if r < q {
                let k = choose|k: int| 0 <= k < prev.len() && #[trigger] prev[k] == line_direction(path, r);
                assert(b[k] == prev[k]);
            } else {
                assert(b[b.len() - 1] == line_direction(path, q));
            }
        }
    }
}

proof fn lemma_straight_line_stops(path: Seq<ChoreoWaypoint>, s: usize, e: int)
    requires
        path.len() <= usize::MAX,
        s <= e <= path.len(),
    ensures
        ({
            let b = straight_line_commands(s, e, guess_indices(path, path.len()));
            forall|q: int|
                #![trigger line_stop(path, q)]
                s < q < e && waypoint_number(path, q) != waypoint_number(path, s as int) ==> exists|k: int|
                    0 <= k && k + 1 < b.len() && #[trigger] b[k] == line_stop(path, q) && b[k + 1]
                        == line_direction(path, q)
        }),
    decreases e - s,
{
    if e > s {
        let removed = guess_indices(path, path.len());
        let q = e - 1;
        lemma_straight_line_stops(path, s, q);
        lemma_straight_line_step(path, s, e);
        let prev = straight_line_commands(s, q, removed);
        let b = straight_line_commands(s, e, removed);
        assert forall|r: int|
            #![trigger line_stop(path, r)]
            s < r < e && waypoint_number(path, r) != waypoint_number(path, s as int) implies exists|
            k: int,
        | 0 <= k && k + 1 < b.len() && #[trigger] b[k] == line_stop(path, r) && b[k + 1]
            == line_direction(path, r) by {
            if r < q {
                let k = choose|k: int|
                    0 <= k && k + 1 < prev.len() && #[trigger] prev[k] == line_stop(path, r) && prev[k + 1]
                        == line_direction(path, r);
                assert(b[k] == prev[k]);
                assert(b[k + 1] == prev[k + 1]);
            } else {
                assert(b[b.len() - 2] == line_stop(path, q));
                assert(b[b.len() - 1] == line_direction(path, q));
            }
        }
    }
}

/// Law: a straight line from path entry `s` to path entry `e` makes the
/// robot keep, at every step `q` in `s .. e`, the direction from waypoint
/// number of `q` to that of `q + 1`, and stop at every waypoint strictly
/// inside the line (right before leaving it); it produces nothing else, and
/// never a stop at its first waypoint.
pub proof fn lemma_straight_line_commands(path: Seq<ChoreoWaypoint>, ci: usize, s: usize, e: usize)
    requires
        path.len() <= usize::MAX,
        s <= e <= path.len(),
    ensures
        line_commands_valid(
            path,
            s as int,
            e as int,
            constraint_commands(
                Constraints::StraightLine { scope: ChoreoConstraintScope::Segment(s, e) },
                ci,
                guess_indices(path, path.len()),
            ),
        ),
{
    let removed = guess_indices(path, path.len());
    let b = constraint_commands(
        Constraints::StraightLine { scope: ChoreoConstraintScope::Segment(s, e) },
        ci,
        removed,
    );
    assert(b == straight_line_commands(s, e as int, removed));
    lemma_straight_line_kinds(path, s, e as int);
    lemma_straight_line_directions(path, s, e as int);
    lemma_straight_line_stops(path, s, e as int);
    assert forall|k: int|
        #![trigger b[k]]
        0 <= k < b.len() implies (exists|q: int|
        s <= q < e && b[k] == #[trigger] line_direction(path, q)) || (exists|q: int|
        s < q < e && waypoint_number(path, q) != waypoint_number(path, s as int) && b[k]
            == #[trigger] line_stop(path, q)) by {
        assert(b[k] == straight_line_commands(s, e as int, removed)[k]);
    }
    assert forall|q: int|
        #![trigger line_direction(path, q)]
        s <= q < e implies exists|k: int| 0 <= k < b.len() && #[trigger] b[k] == line_direction(path, q) by {
        let l = straight_line_commands(s, e as int, removed);
        let k = choose|k: int| 0 <= k < l.len() && #[trigger] l[k] == line_direction(path, q);
        assert(b[k] == l[k]);
    }
    assert forall|q: int|
        #![trigger line_stop(path, q)]
        s < q < e && waypoint_number(path, q) != waypoint_number(path, s as int) implies exists|k: int|
            0 <= k && k + 1 < b.len() && #[trigger] b[k] == line_stop(path, q) && b[k + 1]
                == line_direction(path, q) by {}
}

/// From position `p` on, `plan` holds the circle obstacles `0 .. circles`
/// in order and then the polygon obstacles `0 .. polygons`, each spanning
/// waypoints `0` to `last`.
pub open spec fn obstacles_at(plan: Seq<PathCommand>, circles: nat, polygons: nat, last: usize, p: int) -> bool {
    &&& 0 <= p
    &&& p + circles + polygons <= plan.len()
    &&& forall|k: int|
        0 <= k < circles ==> #[trigger] plan[p + k] == (PathCommand::SgmtCircleObstacle {
            from_wpt: 0,
            to_wpt: last,
            obstacle: k as usize,
        })
    &&& forall|k: int|
        0 <= k < polygons ==> #[trigger] plan[p + circles + k] == (PathCommand::SgmtPolygonObstacle {
            from_wpt: 0,
            to_wpt: last,
            obstacle: k as usize,
        })
}

/// Law: every obstacle is avoided over the whole path, from waypoint 0 to
/// the last true waypoint: the plan holds the circle obstacles in order,
/// then the polygon obstacles in order, and no other obstacle command.
pub proof fn lemma_obstacles_span_whole_path(
    path: Seq<ChoreoWaypoint>,
    cs: Seq<Constraints>,
    circles: nat,
    polygons: nat,
)
    requires
        path.len() <= usize::MAX,
        circles <= usize::MAX,
        polygons <= usize::MAX,
        circles > 0 || polygons > 0 ==> waypoints_before(path, path.len()) > 0,
    ensures
        exists|p: int|
            #[trigger] obstacles_at(
                plan_commands(path, cs, circles, polygons),
                circles,
                polygons,
                (waypoints_before(path, path.len()) - 1) as usize,
                p,
            ),
        forall|p: int|
            0 <= p < plan_commands(path, cs, circles, polygons).len() ==> (#[trigger] plan_commands(
                path,
                cs,
                circles,
                polygons,
            )[p] matches PathCommand::SgmtCircleObstacle { from_wpt, to_wpt, obstacle } ==> from_wpt
                == 0 && to_wpt + 1 == waypoints_before(path, path.len()) && obstacle < circles),
        forall|p: int|
            0 <= p < plan_commands(path, cs, circles, polygons).len() ==> (#[trigger] plan_commands(
                path,
                cs,
                circles,
                polygons,
            )[p] matches PathCommand::SgmtPolygonObstacle { from_wpt, to_wpt, obstacle } ==> from_wpt
                == 0 && to_wpt + 1 == waypoints_before(path, path.len()) && obstacle < polygons),
{
    let n = path.len();
    let removed = guess_indices(path, n);
    let last = (waypoints_before(path, n) - 1) as usize;
    let w = waypoint_commands(path, n);
    let c = all_constraint_commands(cs, cs.len(), removed);
    let o = obstacle_commands(circles, polygons, last);
    let plan = plan_commands(path, cs, circles, polygons);
    let p0: int = (w.len() + 2 + c.len()) as int;
    lemma_guess_indices(path, n);
    lemma_waypoint_phase(path, n);
    lemma_constraint_phase(cs, cs.len(), removed);
    assert forall|k: int| 0 <= k < circles implies #[trigger] plan[p0 + k] == (
    PathCommand::SgmtCircleObstacle { from_wpt: 0, to_wpt: last, obstacle: k as usize }) by {
        assert(plan[p0 + k] == o[k]);
    }
    assert forall|k: int| 0 <= k < polygons implies #[trigger] plan[p0 + circles + k] == (
    PathCommand::SgmtPolygonObstacle { from_wpt: 0, to_wpt: last, obstacle: k as usize }) by {
        assert(plan[p0 + circles + k] == o[circles + k]);
    }
    assert(obstacles_at(plan, circles, polygons, last, p0));
    assert forall|p: int| 0 <= p < plan.len() implies (#[trigger] plan[p]
    matches PathCommand::SgmtCircleObstacle { from_wpt, to_wpt, obstacle } ==> from_wpt == 0 && to_wpt
        + 1 == waypoints_before(path, n) && obstacle < circles) && (plan[p]
    matches PathCommand::SgmtPolygonObstacle { from_wpt, to_wpt, obstacle } ==> from_wpt == 0 && to_wpt
        + 1 == waypoints_before(path, n) && obstacle < polygons) by {
        if p < w.len() {
            assert(plan[p] == w[p]);
        } else if p == w.len() {
        } else if p < w.len() + 1 + c.len() {
            assert(plan[p] == c[p - w.len() - 1]);
        } else if p == w.len() + 1 + c.len() {
        } else if p < p0 + o.len() {
            assert(plan[p] == o[p - p0]);
            if p - p0 >= circles {
                assert(o[p - p0] == (PathCommand::SgmtPolygonObstacle {
                    from_wpt: 0,
                    to_wpt: last,
                    obstacle: (p - p0 - circles) as usize,
                }));
            }
        }
    }
}

/// Commands of the waypoints are waypoint commands.
proof fn lemma_waypoint_phase(path: Seq<ChoreoWaypoint>, m: nat)
    ensures
        forall|k: int|
            0 <= k < waypoint_commands(path, m).len() ==> is_waypoint_phase_command(
                #[trigger] waypoint_commands(path, m)[k],
            ),
    decreases m,
{
    if m > 0 {
        let j = (m - 1) as nat;
        lemma_waypoint_phase(path, j);
        let prev = waypoint_commands(path, j);
        let cur = waypoint_commands(path, m);
        if !path[j as int].is_initial_guess {
            let step = waypoint_step(path, j);
            assert forall|k: int| 0 <= k < cur.len() implies is_waypoint_phase_command(
                #[trigger] cur[k],
            ) by {
                if k >= prev.len() {
                    assert(cur[k] == step[k - prev.len()]);
                } else {
                    assert(cur[k] == prev[k]);
                }
            }
        }
    }
}

/// What a waypoint declaration must satisfy: it comes from a true waypoint
/// `source` of the path, carries that entry's waypoint number, and fixes
/// position and heading when both are constrained, the position alone when
/// only it is, and nothing otherwise.
pub open spec fn declaration_valid(path: Seq<ChoreoWaypoint>, c: PathCommand) -> bool {
    match c {
        PathCommand::PoseWpt { wpt, source } => {
            &&& source < path.len()
            &&& !path[source as int].is_initial_guess
            &&& wpt == waypoint_number(path, source as int)
            &&& path[source as int].translation_constrained
            &&& path[source as int].heading_constrained
        },
        PathCommand::TranslationWpt { wpt, source } => {
            &&& source < path.len()
            &&& !path[source as int].is_initial_guess
            &&& wpt == waypoint_number(path, source as int)
            &&& path[source as int].translation_constrained
            &&& !path[source as int].heading_constrained
        },
        PathCommand::EmptyWpt { wpt, source } => {
            &&& source < path.len()
            &&& !path[source as int].is_initial_guess
            &&& wpt == waypoint_number(path, source as int)
            &&& !path[source as int].translation_constrained
        },
        _ => true,
    }
}

proof fn lemma_declarations_prefix(path: Seq<ChoreoWaypoint>, m: nat)
    requires
        m <= path.len(),
        path.len() <= usize::MAX,
    ensures
        forall|k: int|
            0 <= k < waypoint_commands(path, m).len() ==> declaration_valid(
                path,
                #[trigger] waypoint_commands(path, m)[k],
            ),
    decreases m,
{
    if m > 0 {
        let j = (m - 1) as nat;
        lemma_declarations_prefix(path, j);
        let prev = waypoint_commands(path, j);
        let cur = waypoint_commands(path, m);
        if !path[j as int].is_initial_guess {
            let step = waypoint_step(path, j);
            assert forall|k: int| 0 <= k < cur.len() implies declaration_valid(
                path,
                #[trigger] cur[k],
            ) by {
                if k >= prev.len() {
                    assert(cur[k] == step[k - prev.len()]);
                } else {
                    assert(cur[k] == prev[k]);
                }
            }
        }
    }
}

/// Law: every waypoint declaration in a plan comes from a true waypoint of
/// the path, under that entry's waypoint number, and of the kind its
/// constraint flags ask for.
pub proof fn lemma_declarations_valid(
    path: Seq<ChoreoWaypoint>,
    cs: Seq<Constraints>,
    circles: nat,
    polygons: nat,
    p: int,
)
    requires
        path.len() <= usize::MAX,
        0 <= p < plan_commands(path, cs, circles, polygons).len(),
    ensures
        declaration_valid(path, plan_commands(path, cs, circles, polygons)[p]),
{
    let n = path.len();
    lemma_declarations_prefix(path, n);
    lemma_constraint_phase(cs, cs.len(), guess_indices(path, n));
    let w = waypoint_commands(path, n);
    let c = all_constraint_commands(cs, cs.len(), guess_indices(path, n));
    let o = obstacle_commands(circles, polygons, (waypoints_before(path, n) - 1) as usize);
    let plan = plan_commands(path, cs, circles, polygons);
    if p < w.len() {
        assert(plan[p] == w[p]);
    } else if p == w.len() {
    } else if p < w.len() + 1 + c.len() {
        assert(plan[p] == c[p - w.len() - 1]);
        assert(is_constraint_phase_command(c[p - w.len() - 1]));
    } else if p == w.len() + 1 + c.len() {
    } else if p < w.len() + 2 + c.len() + o.len() {
        assert(plan[p] == o[p - w.len() - 2 - c.len()]);
    }
}

} // verus!
