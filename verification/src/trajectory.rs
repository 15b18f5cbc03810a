//! The path-builder calls that a Choreo path, its constraints and its
//! obstacles produce.
//!
//! The numbers of a path (positions, headings, velocities, obstacle shapes)
//! do not take part in any decision made here: a command refers to the path
//! entry, constraint or obstacle whose numbers it carries by its index.

use vstd::prelude::*;
use crate::scope::{fix_scope, spec_fix_scope, strictly_increasing};

verus! {

/// What the planner reads of one entry of a Choreo path.
#[derive(Clone, Copy, Debug, PartialEq, Eq)]
pub struct ChoreoWaypoint {
    /// The entry only guides the solver and is no waypoint of its own.
    pub is_initial_guess: bool,
    pub translation_constrained: bool,
    pub heading_constrained: bool,
    pub control_interval_count: usize,
}

/// The path entries a constraint applies to, by index in the full path.
#[derive(Clone, Copy, Debug, PartialEq, Eq)]
pub enum ChoreoConstraintScope {
    /// From the first entry to the second.
    Segment(usize, usize),
    /// A single entry.
    Waypoint(usize),
}

/// A constraint of a Choreo path; the numbers that some kinds carry
/// (a direction, a velocity, a target point) are read by its index.
#[derive(Clone, Copy, Debug, PartialEq, Eq)]
pub enum Constraints {
    WptVelocityDirection { scope: ChoreoConstraintScope },
    WptZeroVelocity { scope: ChoreoConstraintScope },
    StopPoint { scope: ChoreoConstraintScope },
    MaxVelocity { scope: ChoreoConstraintScope },
    ZeroAngularVelocity { scope: ChoreoConstraintScope },
    StraightLine { scope: ChoreoConstraintScope },
    PointAt { scope: ChoreoConstraintScope },
}

/// The bound of a linear velocity limit.
#[derive(Clone, Copy, Debug, PartialEq, Eq)]
pub enum VelocityBound {
    /// The waypoint is passed at rest.
    Zero,
    /// The velocity of the constraint with this index.
    OfConstraint(usize),
}

/// One call on the path builder. `wpt`, `from_wpt` and `to_wpt` are
/// waypoint indices of the builder; `source`, `first_guess`, `end_guess`
/// are indices into the full path; `constraint` and `obstacle` index the
/// constraints and obstacles handed to the planner.
#[derive(Clone, Copy, Debug, PartialEq, Eq)]
pub enum PathCommand {
    /// Initial guess points of the segment that starts at `from_wpt`:
    /// the path entries `first_guess .. end_guess` (possibly none).
    SgmtInitialGuessPoints { from_wpt: usize, first_guess: usize, end_guess: usize },
    /// A waypoint with fixed position and heading, taken from path entry `source`.
    PoseWpt { wpt: usize, source: usize },
    /// A waypoint with fixed position, taken from path entry `source`.
    TranslationWpt { wpt: usize, source: usize },
    /// A waypoint only guessed at, taken from path entry `source`.
    EmptyWpt { wpt: usize, source: usize },
    /// The control interval counts of the plan are handed over.
    SetControlIntervalCounts,
    WptLinearVelocityDirection { wpt: usize, constraint: usize },
    WptLinearVelocityMaxMagnitude { wpt: usize, bound: VelocityBound },
    /// Zero angular velocity at a waypoint.
    WptAngularVelocity { wpt: usize },
    SgmtLinearVelocityMaxMagnitude { from_wpt: usize, to_wpt: usize, constraint: usize },
    /// Zero angular velocity over a segment.
    SgmtAngularVelocity { from_wpt: usize, to_wpt: usize },
    /// Travel along the direction from path entry `from_wpt` to path entry
    /// `to_wpt` (both numbers index the full path for the direction).
    SgmtLinearVelocityDirection { from_wpt: usize, to_wpt: usize },
    WptPointAt { wpt: usize, constraint: usize },
    SgmtPointAt { from_wpt: usize, to_wpt: usize, constraint: usize },
    /// The robot's bumpers are handed over.
    SetBumpers,
    SgmtCircleObstacle { from_wpt: usize, to_wpt: usize, obstacle: usize },
    SgmtPolygonObstacle { from_wpt: usize, to_wpt: usize, obstacle: usize },
    /// The robot's drivetrain is handed over; the trajectory can be generated.
    SetDrivetrain,
}

/// The calls to make on a fresh path builder, in order, and the control
/// interval counts that `SetControlIntervalCounts` hands over.
#[derive(Debug)]
pub struct TrajectoryPlan {
    pub commands: Vec<PathCommand>,
    pub control_interval_counts: Vec<usize>,
}

/// Number of true waypoints (entries that are no initial guess) among the
/// first `m` entries of the path.
pub open spec fn waypoints_before(path: Seq<ChoreoWaypoint>, m: nat) -> nat
    decreases m,
{
    if m == 0 {
        0
    } else {
        waypoints_before(path, (m - 1) as nat) + (if path[m - 1].is_initial_guess {
            0nat
        } else {
            1nat
        })
    }
}

/// Indices of the initial-guess entries among the first `m` entries, in order.
pub open spec fn guess_indices(path: Seq<ChoreoWaypoint>, m: nat) -> Seq<usize>
    decreases m,
{
    if m == 0 {
        seq![]
    } else if path[m - 1].is_initial_guess {
        guess_indices(path, (m - 1) as nat).push((m - 1) as usize)
    } else {
        guess_indices(path, (m - 1) as nat)
    }
}

/// Start of the run of initial-guess entries that ends at entry `m`.
pub open spec fn pending_start(path: Seq<ChoreoWaypoint>, m: nat) -> nat
    decreases m,
{
    if m == 0 {
        0
    } else if path[m - 1].is_initial_guess {
        pending_start(path, (m - 1) as nat)
    } else {
        m
    }
}

/// The command that declares waypoint `wpt` from path entry `source`.
pub open spec fn waypoint_command(w: ChoreoWaypoint, wpt: usize, source: usize) -> PathCommand {
    if w.heading_constrained && w.translation_constrained {
        PathCommand::PoseWpt { wpt, source }
    } else if w.translation_constrained {
        PathCommand::TranslationWpt { wpt, source }
    } else {
        PathCommand::EmptyWpt { wpt, source }
    }
}

/// The commands that path entry `j`, a true waypoint, produces: the guess
/// points gathered since the previous waypoint go to the segment that ends
/// here (when there is one), then the waypoint is declared.
pub open spec fn waypoint_step(path: Seq<ChoreoWaypoint>, j: nat) -> Seq<PathCommand> {
    let k = waypoints_before(path, j);
    let flush = if k > 0 {
        seq![
            PathCommand::SgmtInitialGuessPoints {
                from_wpt: (k - 1) as usize,
                first_guess: pending_start(path, j) as usize,
                end_guess: j as usize,
            },
        ]
    } else {
        seq![]
    };
    flush.push(waypoint_command(path[j as int], k as usize, j as usize))
}

/// The commands that the first `m` path entries produce.
pub open spec fn waypoint_commands(path: Seq<ChoreoWaypoint>, m: nat) -> Seq<PathCommand>
    decreases m,
{
    if m == 0 {
        seq![]
    } else if path[m - 1].is_initial_guess {
        waypoint_commands(path, (m - 1) as nat)
    } else {
        waypoint_commands(path, (m - 1) as nat) + waypoint_step(path, (m - 1) as nat)
    }
}

/// The control interval counts after the first `m` path entries: each
/// waypoint but the path's last entry opens a segment with its own count;
/// an initial-guess entry adds its count to the segment it lies in (and is
/// dropped before the first waypoint).
pub open spec fn interval_counts(path: Seq<ChoreoWaypoint>, m: nat) -> Seq<int>
    decreases m,
{
    if m == 0 {
        seq![]
    } else {
        let c = interval_counts(path, (m - 1) as nat);
        let w = path[m - 1];
        if !w.is_initial_guess {
            if m != path.len() {
                c.push(w.control_interval_count as int)
            } else {
                c
            }
        } else if c.len() > 0 {
            c.update(c.len() - 1, c.last() + w.control_interval_count)
        } else {
            c
        }
    }
}

/// `fix_scope` over the initial-guess entries of the path.
pub open spec fn fixed(idx: int, removed: Seq<usize>) -> usize {
    spec_fix_scope(idx, removed) as usize
}

/// Commands of a straight-line constraint over `start .. end`: every point
/// but the first becomes a stop point, and every step keeps the direction
/// between the two path entries.
pub open spec fn straight_line_commands(start: usize, end: int, removed: Seq<usize>) -> Seq<
    PathCommand,
>
    decreases end - start,
{
    if end <= start {
        seq![]
    } else {
        let point = end - 1;
        let this_pt = fixed(point, removed);
        let next_pt = fixed(point + 1, removed);
        let stop = if this_pt != fixed(start as int, removed) {
            seq![
                PathCommand::WptLinearVelocityMaxMagnitude { wpt: this_pt, bound: VelocityBound::Zero },
            ]
        } else {
            seq![]
        };
        straight_line_commands(start, point, removed) + stop + seq![
            PathCommand::SgmtLinearVelocityDirection { from_wpt: this_pt, to_wpt: next_pt },
        ]
    }
}

/// Commands of constraint number `ci`.
pub open spec fn constraint_commands(c: Constraints, ci: usize, removed: Seq<usize>) -> Seq<
    PathCommand,
> {
    match c {
        Constraints::WptVelocityDirection { scope } => match scope {
            ChoreoConstraintScope::Waypoint(a) => seq![
                PathCommand::WptLinearVelocityDirection { wpt: fixed(a as int, removed), constraint: ci },
            ],
            ChoreoConstraintScope::Segment(..) => seq![],
        },
        Constraints::WptZeroVelocity { scope } => match scope {
            ChoreoConstraintScope::Waypoint(a) => seq![
                PathCommand::WptLinearVelocityMaxMagnitude {
                    wpt: fixed(a as int, removed),
                    bound: VelocityBound::Zero,
                },
            ],
            ChoreoConstraintScope::Segment(..) => seq![],
        },
        Constraints::StopPoint { scope } => match scope {
            ChoreoConstraintScope::Waypoint(a) => seq![
                PathCommand::WptLinearVelocityMaxMagnitude {
                    wpt: fixed(a as int, removed),
                    bound: VelocityBound::Zero,
                },
                PathCommand::WptAngularVelocity { wpt: fixed(a as int, removed) },
            ],
            ChoreoConstraintScope::Segment(..) => seq![],
        },
        Constraints::MaxVelocity { scope } => match scope {
            ChoreoConstraintScope::Waypoint(a) => seq![
                PathCommand::WptLinearVelocityMaxMagnitude {
                    wpt: fixed(a as int, removed),
                    bound: VelocityBound::OfConstraint(ci),
                },
            ],
            ChoreoConstraintScope::Segment(a, b) => seq![
                PathCommand::SgmtLinearVelocityMaxMagnitude {
                    from_wpt: fixed(a as int, removed),
                    to_wpt: fixed(b as int, removed),
                    constraint: ci,
                },
            ],
        },
        Constraints::ZeroAngularVelocity { scope } => match scope {
            ChoreoConstraintScope::Waypoint(a) => seq![
                PathCommand::WptAngularVelocity { wpt: fixed(a as int, removed) },
            ],
            ChoreoConstraintScope::Segment(a, b) => seq![
                PathCommand::SgmtAngularVelocity {
                    from_wpt: fixed(a as int, removed),
                    to_wpt: fixed(b as int, removed),
                },
            ],
        },
        Constraints::StraightLine { scope } => match scope {
            ChoreoConstraintScope::Waypoint(..) => seq![],
            ChoreoConstraintScope::Segment(a, b) => straight_line_commands(a, b as int, removed),
        },
        Constraints::PointAt { scope } => match scope {
            ChoreoConstraintScope::Waypoint(a) => seq![
                PathCommand::WptPointAt { wpt: fixed(a as int, removed), constraint: ci },
            ],
            ChoreoConstraintScope::Segment(a, b) => seq![
                PathCommand::SgmtPointAt {
                    from_wpt: fixed(a as int, removed),
                    to_wpt: fixed(b as int, removed),
                    constraint: ci,
                },
            ],
        },
    }
}

/// Commands of the first `m` constraints.
pub open spec fn all_constraint_commands(cs: Seq<Constraints>, m: nat, removed: Seq<usize>) -> Seq<
    PathCommand,
>
    decreases m,
{
    if m == 0 {
        seq![]
    } else {
        all_constraint_commands(cs, (m - 1) as nat, removed) + constraint_commands(
            cs[m - 1],
            (m - 1) as usize,
            removed,
        )
    }
}

/// Every obstacle spans the whole path, from the first to the last waypoint.
pub open spec fn obstacle_commands(circles: nat, polygons: nat, last_wpt: usize) -> Seq<PathCommand> {
    Seq::new(
        circles,
        |k: int| PathCommand::SgmtCircleObstacle { from_wpt: 0, to_wpt: last_wpt, obstacle: k as usize },
    ) + Seq::new(
        polygons,
        |k: int| PathCommand::SgmtPolygonObstacle { from_wpt: 0, to_wpt: last_wpt, obstacle: k as usize },
    )
}

/// The whole sequence of builder calls for a path, its constraints and its
/// obstacles.
pub open spec fn plan_commands(
    path: Seq<ChoreoWaypoint>,
    cs: Seq<Constraints>,
    circles: nat,
    polygons: nat,
) -> Seq<PathCommand> {
    let n = path.len();
    let removed = guess_indices(path, n);
    let last_wpt = (waypoints_before(path, n) - 1) as usize;
    waypoint_commands(path, n) + seq![PathCommand::SetControlIntervalCounts]
        + all_constraint_commands(cs, cs.len(), removed) + seq![PathCommand::SetBumpers]
        + obstacle_commands(circles, polygons, last_wpt) + seq![PathCommand::SetDrivetrain]
}

/// The control interval counts of a path fit in `usize`.
pub open spec fn counts_fit(path: Seq<ChoreoWaypoint>) -> bool {
    forall|k: int|
        0 <= k < interval_counts(path, path.len()).len() ==> #[trigger] interval_counts(
            path,
            path.len(),
        )[k] <= usize::MAX
}

/// The initial-guess entries among the first `m` are listed in order, lie
/// below `m`, and together with the waypoints make up all `m` entries.
pub proof fn lemma_guess_indices(path: Seq<ChoreoWaypoint>, m: nat)
    requires
        m <= path.len(),
        m <= usize::MAX,
    ensures
        strictly_increasing(guess_indices(path, m)),
        forall|i: int|
            0 <= i < guess_indices(path, m).len() ==> (#[trigger] guess_indices(path, m)[i] as int)
                < m,
        guess_indices(path, m).len() + waypoints_before(path, m) == m,
        waypoints_before(path, m) <= m,
        pending_start(path, m) <= m,
    decreases m,
{
    if m > 0 {
        let prev = guess_indices(path, (m - 1) as nat);
        lemma_guess_indices(path, (m - 1) as nat);
        let cur = guess_indices(path, m);
        assert forall|i: int, j: int| 0 <= i < j < cur.len() implies cur[i] < cur[j] by {
            if j < prev.len() {
                assert(cur[i] == prev[i] && cur[j] == prev[j]);
            } else {
                assert(cur[i] == prev[i]);
                assert(prev[i] < m - 1);
            }
        }
        assert forall|i: int| 0 <= i < cur.len() implies (#[trigger] cur[i] as int) < m by {
            if i < prev.len() {
                assert(cur[i] == prev[i]);
            }
        }
    }
}

/// Control interval counts are never negative.
pub proof fn lemma_interval_counts_nonneg(path: Seq<ChoreoWaypoint>, m: nat)
    ensures
        forall|k: int|
            0 <= k < interval_counts(path, m).len() ==> 0 <= #[trigger] interval_counts(path, m)[k],
    decreases m,
{
    if m > 0 {
        lemma_interval_counts_nonneg(path, (m - 1) as nat);
        let c = interval_counts(path, (m - 1) as nat);
        let d = interval_counts(path, m);
        assert forall|k: int| 0 <= k < d.len() implies 0 <= #[trigger] d[k] by {
            if k < c.len() {
                assert(0 <= c[k]);
            }
        }
    }
}

/// While the path is read, a control interval count only grows, and the
/// list of counts only gets longer.
pub proof fn lemma_interval_counts_grow(path: Seq<ChoreoWaypoint>, m: nat, m2: nat)
    requires
        m <= m2 <= path.len(),
    ensures
        interval_counts(path, m).len() <= interval_counts(path, m2).len(),
        forall|k: int|
            0 <= k < interval_counts(path, m).len() ==> 0 <= #[trigger] interval_counts(path, m)[k]
                <= interval_counts(path, m2)[k],
    decreases m2,
{
    lemma_interval_counts_nonneg(path, m);
    if m2 > m {
        let mid = (m2 - 1) as nat;
        lemma_interval_counts_grow(path, m, mid);
        let a = interval_counts(path, m);
        let b = interval_counts(path, mid);
        let c = interval_counts(path, m2);
        assert forall|k: int| 0 <= k < a.len() implies #[trigger] a[k] <= c[k] by {
            assert(a[k] <= b[k]);
            assert(b[k] <= c[k]);
        }
    }
}

/// `fix_scope` over the initial-guess entries of a path.
fn fix(idx: usize, removed: &Vec<usize>) -> (r: usize)
    requires
        strictly_increasing(removed@),
    ensures
        r == fixed(idx as int, removed@),
        r == spec_fix_scope(idx as int, removed@),
{
    proof {
        crate::scope::lemma_strictly_increasing_no_duplicates(removed@);
        crate::scope::lemma_count_below_bounded(removed@, idx as int);
    }
    fix_scope(idx, removed)
}

/// Appends the commands of a straight-line constraint over `start .. end`.
fn push_straight_line(commands: &mut Vec<PathCommand>, start: usize, end: usize, removed: &Vec<usize>)
    requires
        strictly_increasing(removed@),
    ensures
        final(commands)@ == old(commands)@ + straight_line_commands(start, end as int, removed@),
{
    let ghost before = commands@;
    let first = fix(start, removed);
    let mut point: usize = start;
    if end <= start {
        assert(straight_line_commands(start, end as int, removed@) =~= Seq::<PathCommand>::empty());
        assert(commands@ =~= before + straight_line_commands(start, end as int, removed@));
        return;
    }
    assert(straight_line_commands(start, start as int, removed@) =~= Seq::<PathCommand>::empty());
    assert(commands@ =~= before + straight_line_commands(start, start as int, removed@));
    while point < end
        invariant
            start <= point <= end,
            strictly_increasing(removed@),
            first == fixed(start as int, removed@),
            commands@ == before + straight_line_commands(start, point as int, removed@),
        decreases end - point,
    {
        let this_pt = fix(point, removed);
        let next_pt = fix(point + 1, removed);
        if this_pt != first {
            commands.push(
                PathCommand::WptLinearVelocityMaxMagnitude { wpt: this_pt, bound: VelocityBound::Zero },
            );
        }
        commands.push(PathCommand::SgmtLinearVelocityDirection { from_wpt: this_pt, to_wpt: next_pt });
        point = point + 1;
        assert(commands@ =~= before + straight_line_commands(start, point as int, removed@));
    }
}

/// Appends the commands of constraint number `ci`.
fn push_constraint(commands: &mut Vec<PathCommand>, c: Constraints, ci: usize, removed: &Vec<usize>)
    requires
        strictly_increasing(removed@),
    ensures
        final(commands)@ == old(commands)@ + constraint_commands(c, ci, removed@),
{
    let ghost before = commands@;
    match c {
        Constraints::WptVelocityDirection { scope } => {
            if let ChoreoConstraintScope::Waypoint(a) = scope {
                let wpt = fix(a, removed);
                commands.push(PathCommand::WptLinearVelocityDirection { wpt, constraint: ci });
            }
        },
        Constraints::WptZeroVelocity { scope } => {
            if let ChoreoConstraintScope::Waypoint(a) = scope {
                let wpt = fix(a, removed);
                commands.push(
                    PathCommand::WptLinearVelocityMaxMagnitude { wpt, bound: VelocityBound::Zero },
                );
            }
        },
        Constraints::StopPoint { scope } => {
            if let ChoreoConstraintScope::Waypoint(a) = scope {
                let wpt = fix(a, removed);
                commands.push(
                    PathCommand::WptLinearVelocityMaxMagnitude { wpt, bound: VelocityBound::Zero },
                );
                let wpt2 = fix(a, removed);
                commands.push(PathCommand::WptAngularVelocity { wpt: wpt2 });
            }
        },
        Constraints::MaxVelocity { scope } => match scope {
            ChoreoConstraintScope::Waypoint(a) => {
                let wpt = fix(a, removed);
                commands.push(
                    PathCommand::WptLinearVelocityMaxMagnitude {
                        wpt,
                        bound: VelocityBound::OfConstraint(ci),
                    },
                );
            },
            ChoreoConstraintScope::Segment(a, b) => {
                let from_wpt = fix(a, removed);
                let to_wpt = fix(b, removed);
                commands.push(
                    PathCommand::SgmtLinearVelocityMaxMagnitude { from_wpt, to_wpt, constraint: ci },
                );
            },
        },
        Constraints::ZeroAngularVelocity { scope } => match scope {
            ChoreoConstraintScope::Waypoint(a) => {
                let wpt = fix(a, removed);
                commands.push(PathCommand::WptAngularVelocity { wpt });
            },
            ChoreoConstraintScope::Segment(a, b) => {
                let from_wpt = fix(a, removed);
                let to_wpt = fix(b, removed);
                commands.push(PathCommand::SgmtAngularVelocity { from_wpt, to_wpt });
            },
        },
        Constraints::StraightLine { scope } => {
            if let ChoreoConstraintScope::Segment(a, b) = scope {
                push_straight_line(commands, a, b, removed);
            }
        },
        Constraints::PointAt { scope } => match scope {
            ChoreoConstraintScope::Waypoint(a) => {
                let wpt = fix(a, removed);
                commands.push(PathCommand::WptPointAt { wpt, constraint: ci });
            },
            ChoreoConstraintScope::Segment(a, b) => {
                let from_wpt = fix(a, removed);
                let to_wpt = fix(b, removed);
                commands.push(PathCommand::SgmtPointAt { from_wpt, to_wpt, constraint: ci });
            },
        },
    }
    assert(commands@ =~= before + constraint_commands(c, ci, removed@));
}

/// The calls on a fresh path builder that turn `path`, its `constraints`
/// and `circle_obstacles` circle and `polygon_obstacles` polygon obstacles
/// into a trajectory problem, ending with the drivetrain; the trajectory
/// is then generated from the builder.
///
/// Initial-guess entries are taken out of the path: they become guess
/// points of the segment they lie in, their control interval counts are
/// added to that segment's, and the scopes of the constraints are mapped to
/// the waypoints that remain (`fix_scope`).
pub fn plan_trajectory(
    path: &Vec<ChoreoWaypoint>,
    constraints: &Vec<Constraints>,
    circle_obstacles: usize,
    polygon_obstacles: usize,
) -> (plan: TrajectoryPlan)
    requires
        counts_fit(path@),
        circle_obstacles > 0 || polygon_obstacles > 0 ==> waypoints_before(path@, path@.len()) > 0,
    ensures
        plan.commands@ == plan_commands(
            path@,
            constraints@,
            circle_obstacles as nat,
            polygon_obstacles as nat,
        ),
        plan.control_interval_counts@.len() == interval_counts(path@, path@.len()).len(),
        forall|k: int|
            0 <= k < plan.control_interval_counts@.len() ==> plan.control_interval_counts@[k]
                == #[trigger] interval_counts(path@, path@.len())[k],
{
    let n = path.len();
    let mut commands: Vec<PathCommand> = Vec::new();
    let mut wpt_cnt: usize = 0;
    let mut rm: Vec<usize> = Vec::new();
    let mut counts: Vec<usize> = Vec::new();
    let mut guess_start: usize = 0;
    let mut i: usize = 0;
    while i < n
        invariant
            n == path@.len(),
            i <= n,
            counts_fit(path@),
            commands@ == waypoint_commands(path@, i as nat),
            wpt_cnt == waypoints_before(path@, i as nat),
            rm@ == guess_indices(path@, i as nat),
            guess_start == pending_start(path@, i as nat),
            counts@.len() == interval_counts(path@, i as nat).len(),
            forall|k: int|
                0 <= k < counts@.len() ==> counts@[k] == #[trigger] interval_counts(path@, i as nat)[k],
        decreases n - i,
    {
        proof {
            lemma_guess_indices(path@, i as nat);
            lemma_interval_counts_grow(path@, (i + 1) as nat, n as nat);
        }
        let wpt = path[i];
        if wpt.is_initial_guess {
            rm.push(i);
            let len = counts.len();
            if len > 0 {
                let last = counts[len - 1];
                assert(interval_counts(path@, (i + 1) as nat)[len - 1] == last
                    + wpt.control_interval_count);
                assert(interval_counts(path@, n as nat)[len - 1] <= usize::MAX);
                counts.set(len - 1, last + wpt.control_interval_count);
            }
        } else {
            if wpt_cnt > 0 {
                commands.push(
                    PathCommand::SgmtInitialGuessPoints {
                        from_wpt: wpt_cnt - 1,
                        first_guess: guess_start,
                        end_guess: i,
                    },
                );
            }
            guess_start = i + 1;
            if wpt.heading_constrained && wpt.translation_constrained {
                commands.push(PathCommand::PoseWpt { wpt: wpt_cnt, source: i });
            } else if wpt.translation_constrained {
                commands.push(PathCommand::TranslationWpt { wpt: wpt_cnt, source: i });
            } else {
                commands.push(PathCommand::EmptyWpt { wpt: wpt_cnt, source: i });
            }
            wpt_cnt += 1;
            if i != n - 1 {
                counts.push(wpt.control_interval_count);
            }
        }
        i += 1;
        assert(commands@ =~= waypoint_commands(path@, i as nat));
        assert(counts@ =~= interval_counts(path@, i as nat).map_values(|x: int| x as usize)) by {
            assert(counts@.len() == interval_counts(path@, i as nat).len());
        }
    }
    proof {
        lemma_guess_indices(path@, n as nat);
    }
    let ghost waypoint_part = commands@;
    commands.push(PathCommand::SetControlIntervalCounts);
    let mut ci: usize = 0;
    while ci < constraints.len()
        invariant
            ci <= constraints.len(),
            strictly_increasing(rm@),
            rm@ == guess_indices(path@, path@.len()),
            commands@ == waypoint_part + seq![PathCommand::SetControlIntervalCounts]
                + all_constraint_commands(constraints@, ci as nat, rm@),
        decreases constraints.len() - ci,
    {
        push_constraint(&mut commands, constraints[ci], ci, &rm);
        ci += 1;
        assert(commands@ =~= waypoint_part + seq![PathCommand::SetControlIntervalCounts]
            + all_constraint_commands(constraints@, ci as nat, rm@));
    }
    commands.push(PathCommand::SetBumpers);
    let ghost before_obstacles = commands@;
    let ghost last_wpt = (waypoints_before(path@, path@.len()) - 1) as usize;
    let mut k: usize = 0;
    while k < circle_obstacles
        invariant
            k <= circle_obstacles,
            circle_obstacles > 0 ==> wpt_cnt > 0,
            wpt_cnt == waypoints_before(path@, path@.len()),
            last_wpt == (waypoints_before(path@, path@.len()) - 1) as usize,
            commands@ == before_obstacles + obstacle_commands(k as nat, 0, last_wpt),
        decreases circle_obstacles - k,
    {
        commands.push(PathCommand::SgmtCircleObstacle { from_wpt: 0, to_wpt: wpt_cnt - 1, obstacle: k });
        k += 1;
        assert(commands@ =~= before_obstacles + obstacle_commands(k as nat, 0, last_wpt));
    }
    let mut k: usize = 0;
    while k < polygon_obstacles
        invariant
            k <= polygon_obstacles,
            polygon_obstacles > 0 ==> wpt_cnt > 0,
            wpt_cnt == waypoints_before(path@, path@.len()),
            last_wpt == (waypoints_before(path@, path@.len()) - 1) as usize,
            commands@ == before_obstacles + obstacle_commands(circle_obstacles as nat, k as nat, last_wpt),
        decreases polygon_obstacles - k,
    {
        commands.push(PathCommand::SgmtPolygonObstacle { from_wpt: 0, to_wpt: wpt_cnt - 1, obstacle: k });
        k += 1;
        assert(commands@ =~= before_obstacles + obstacle_commands(circle_obstacles as nat, k as nat, last_wpt));
    }
    commands.push(PathCommand::SetDrivetrain);
    assert(commands@ =~= plan_commands(
        path@,
        constraints@,
        circle_obstacles as nat,
        polygon_obstacles as nat,
    ));
    TrajectoryPlan { commands, control_interval_counts: counts }
}

/// The control interval counts of `path`, or `None` when one of them does
/// not fit in `usize`.
pub fn checked_interval_counts(path: &Vec<ChoreoWaypoint>) -> (r: Option<Vec<usize>>)
    ensures
        r is Some <==> counts_fit(path@),
        r matches Some(counts) ==> counts@.len() == interval_counts(path@, path@.len()).len()
            && forall|k: int|
            0 <= k < counts@.len() ==> counts@[k] == #[trigger] interval_counts(path@, path@.len())[k],
{
    let n = path.len();
    let mut counts: Vec<usize> = Vec::new();
    let mut i: usize = 0;
    while i < n
        invariant
            n == path@.len(),
            i <= n,
            counts@.len() == interval_counts(path@, i as nat).len(),
            forall|k: int|
                0 <= k < counts@.len() ==> counts@[k] == #[trigger] interval_counts(path@, i as nat)[k],
        decreases n - i,
    {
        proof {
            lemma_interval_counts_grow(path@, (i + 1) as nat, n as nat);
        }
        let wpt = path[i];
        if wpt.is_initial_guess {
            let len = counts.len();
            if len > 0 {
                let last = counts[len - 1];
                match last.checked_add(wpt.control_interval_count) {
                    Some(sum) => {
                        counts.set(len - 1, sum);
                    },
                    None => {
                        assert(interval_counts(path@, (i + 1) as nat)[len - 1] > usize::MAX);
                        assert(interval_counts(path@, n as nat)[len - 1] > usize::MAX);
                        return None;
                    },
                }
            }
        } else if i != n - 1 {
            counts.push(wpt.control_interval_count);
        }
        i += 1;
        assert(counts@.len() == interval_counts(path@, i as nat).len());
    }
    Some(counts)
}

/// Number of true waypoints of `path`.
pub fn waypoint_count(path: &Vec<ChoreoWaypoint>) -> (count: usize)
    ensures
        count == waypoints_before(path@, path@.len()),
{
    let mut count: usize = 0;
    let mut i: usize = 0;
    while i < path.len()
        invariant
            i <= path.len(),
            count == waypoints_before(path@, i as nat),
        decreases path.len() - i,
    {
        proof {
            lemma_guess_indices(path@, i as nat);
        }
        if !path[i].is_initial_guess {
            count += 1;
        }
        i += 1;
    }
    count
}

/// `plan_trajectory` on every input: `None` exactly where it cannot be
/// applied, that is where a control interval count overflows `usize` or
/// obstacles are given for a path without waypoints.
pub fn try_plan_trajectory(
    path: &Vec<ChoreoWaypoint>,
    constraints: &Vec<Constraints>,
    circle_obstacles: usize,
    polygon_obstacles: usize,
) -> (r: Option<TrajectoryPlan>)
    ensures
        r is Some <==> (counts_fit(path@) && (circle_obstacles > 0 || polygon_obstacles > 0
            ==> waypoints_before(path@, path@.len()) > 0)),
        r matches Some(plan) ==> {
            &&& plan.commands@ == plan_commands(
                path@,
                constraints@,
                circle_obstacles as nat,
                polygon_obstacles as nat,
            )
            &&& plan.control_interval_counts@.len() == interval_counts(path@, path@.len()).len()
            &&& forall|k: int|
                0 <= k < plan.control_interval_counts@.len() ==> plan.control_interval_counts@[k]
                    == #[trigger] interval_counts(path@, path@.len())[k]
        },
{
    if checked_interval_counts(path).is_none() {
        return None;
    }
    if (circle_obstacles > 0 || polygon_obstacles > 0) && waypoint_count(path) == 0 {
        return None;
    }
    Some(plan_trajectory(path, constraints, circle_obstacles, polygon_obstacles))
}

/// The guess indices of a shorter prefix start the guess indices of a
/// longer one; the rest lie at or above the shorter prefix's length.
pub proof fn lemma_guess_indices_prefix(path: Seq<ChoreoWaypoint>, j: nat, m: nat)
    requires
        j <= m <= path.len(),
        m <= usize::MAX,
    ensures
        guess_indices(path, j).len() <= guess_indices(path, m).len(),
        guess_indices(path, m).subrange(0, guess_indices(path, j).len() as int) == guess_indices(
            path,
            j,
        ),
        forall|k: int|
            guess_indices(path, j).len() <= k < guess_indices(path, m).len() ==> j <= (
            #[trigger] guess_indices(path, m)[k] as int),
    decreases m,
{
    if m > j {
        lemma_guess_indices_prefix(path, j, (m - 1) as nat);
        let a = guess_indices(path, j);
        let b = guess_indices(path, (m - 1) as nat);
        let c = guess_indices(path, m);
        assert(c.subrange(0, a.len() as int) =~= b.subrange(0, a.len() as int));
        assert forall|k: int| a.len() <= k < c.len() implies j <= (#[trigger] c[k] as int) by {
            if k < b.len() {
                assert(c[k] == b[k]);
            }
        }
    } else {
        assert(guess_indices(path, m).subrange(0, guess_indices(path, j).len() as int)
            =~= guess_indices(path, j));
    }
}

/// Law: over the initial-guess entries of a path, `fix_scope` maps every
/// path index (up to the path's length) to the number of true waypoints
/// before it; for a true waypoint that is its index among the waypoints.
pub proof fn lemma_fix_scope_counts_waypoints(path: Seq<ChoreoWaypoint>, j: nat)
    requires
        path.len() <= usize::MAX,
        j <= path.len(),
    ensures
        spec_fix_scope(j as int, guess_indices(path, path.len())) == waypoints_before(path, j),
{
    let n = path.len();
    let a = guess_indices(path, j);
    let c = guess_indices(path, n);
    lemma_guess_indices_prefix(path, j, n);
    lemma_guess_indices(path, j);
    let rest = c.subrange(a.len() as int, c.len() as int);
    assert(c =~= a + rest);
    crate::scope::lemma_count_below_append_high(a, rest, j as int);
    crate::scope::lemma_count_below_all(a, j as int);
}

/// The waypoint commands of a shorter prefix start those of a longer one.
pub proof fn lemma_waypoint_commands_prefix(path: Seq<ChoreoWaypoint>, j: nat, m: nat)
    requires
        j <= m <= path.len(),
    ensures
        waypoint_commands(path, j).len() <= waypoint_commands(path, m).len(),
        waypoint_commands(path, m).subrange(0, waypoint_commands(path, j).len() as int)
            == waypoint_commands(path, j),
    decreases m,
{
    if m > j {
        lemma_waypoint_commands_prefix(path, j, (m - 1) as nat);
        let a = waypoint_commands(path, j);
        let b = waypoint_commands(path, (m - 1) as nat);
        let c = waypoint_commands(path, m);
        assert(c.subrange(0, a.len() as int) =~= b.subrange(0, a.len() as int));
    } else {
        assert(waypoint_commands(path, m).subrange(0, waypoint_commands(path, j).len() as int)
            =~= waypoint_commands(path, j));
    }
}

/// Law: every true waypoint of the path is declared to the builder, from
/// its own path entry, under the index that `fix_scope` gives its path
/// index; so a constraint scoped at a waypoint reaches that waypoint.
pub proof fn lemma_waypoint_declared_at_fixed_index(
    path: Seq<ChoreoWaypoint>,
    cs: Seq<Constraints>,
    circles: nat,
    polygons: nat,
    j: nat,
)
    requires
        path.len() <= usize::MAX,
        j < path.len(),
        !path[j as int].is_initial_guess,
    ensures
        exists|p: int|
            0 <= p < plan_commands(path, cs, circles, polygons).len() && plan_commands(
                path,
                cs,
                circles,
                polygons,
            )[p] == waypoint_command(
                path[j as int],
                fixed(j as int, guess_indices(path, path.len())),
                j as usize,
            ),
{
    let n = path.len();
    lemma_fix_scope_counts_waypoints(path, j);
    lemma_waypoint_commands_prefix(path, (j + 1) as nat, n);
    let pre = waypoint_commands(path, (j + 1) as nat);
    let all = waypoint_commands(path, n);
    let p = pre.len() - 1;
    assert(pre[p] == waypoint_command(path[j as int], waypoints_before(path, j) as usize, j as usize));
    assert(all[p] == pre[p]);
    let plan = plan_commands(path, cs, circles, polygons);
    assert(plan[p] == all[p]);
}

/// Sum of a list of numbers.
pub open spec fn seq_sum(s: Seq<int>) -> int
    decreases s.len(),
{
    if s.len() == 0 {
        0
    } else {
        seq_sum(s.drop_last()) + s.last()
    }
}

/// Whether the control interval count of path entry `j` is kept in the
/// plan: it is, from the first true waypoint on, except for the path's last
/// entry when that is a true waypoint (no segment starts there).
pub open spec fn count_is_kept(path: Seq<ChoreoWaypoint>, j: nat) -> bool {
    &&& waypoints_before(path, j + 1) > 0
    &&& !(j + 1 == path.len() && !path[j as int].is_initial_guess)
}

/// Sum of the control interval counts of the first `m` path entries that
/// the plan keeps.
pub open spec fn kept_count_total(path: Seq<ChoreoWaypoint>, m: nat) -> int
    decreases m,
{
    if m == 0 {
        0
    } else {
        kept_count_total(path, (m - 1) as nat) + (if count_is_kept(path, (m - 1) as nat) {
            path[m - 1].control_interval_count as int
        } else {
            0
        })
    }
}

/// How many control interval counts the first `m` entries produce.
proof fn lemma_interval_counts_len(path: Seq<ChoreoWaypoint>, m: nat)
    requires
        m <= path.len(),
    ensures
        interval_counts(path, m).len() == waypoints_before(path, m) - (if m == path.len() && m
            > 0 && !path[m - 1].is_initial_guess {
            1int
        } else {
            0int
        }),
    decreases m,
{
    if m > 0 {
        lemma_interval_counts_len(path, (m - 1) as nat);
    }
}

/// Law: the plan hands the builder one control interval count per segment
/// between consecutive waypoints, and one more when the path ends with
/// initial-guess entries.
pub proof fn lemma_interval_count_number(path: Seq<ChoreoWaypoint>)
    ensures
        interval_counts(path, path.len()).len() == waypoints_before(path, path.len()) - (if path.len()
            > 0 && !path[path.len() - 1].is_initial_guess {
            1int
        } else {
            0int
        }),
{
    lemma_interval_counts_len(path, path.len());
}

/// Law: no control interval is lost or made up: the counts handed to the
/// builder add up to the counts of all path entries from the first true
/// waypoint on (those of initial-guess entries included), except the
/// count of a final true waypoint, after which no segment starts.
pub proof fn lemma_interval_counts_total(path: Seq<ChoreoWaypoint>)
    ensures
        seq_sum(interval_counts(path, path.len())) == kept_count_total(path, path.len()),
{
    lemma_interval_counts_total_prefix(path, path.len());
}

proof fn lemma_interval_counts_total_prefix(path: Seq<ChoreoWaypoint>, m: nat)
    requires
        m <= path.len(),
    ensures
        seq_sum(interval_counts(path, m)) == kept_count_total(path, m),
    decreases m,
{
    if m > 0 {
        let j = (m - 1) as nat;
        lemma_interval_counts_total_prefix(path, j);
        lemma_interval_counts_len(path, j);
        let c = interval_counts(path, j);
        let w = path[j as int];
        if !w.is_initial_guess {
            if m != path.len() {
                assert(c.push(w.control_interval_count as int).drop_last() =~= c);
            }
        } else if c.len() > 0 {
            let d = c.update(c.len() - 1, c.last() + w.control_interval_count);
            assert(d.drop_last() =~= c.drop_last());
        }
    }
}

} // verus!
