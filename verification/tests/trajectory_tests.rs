use choreo::scope::fix_scope;
use choreo::trajectory::{
    checked_interval_counts, try_plan_trajectory, waypoint_count,
    plan_trajectory, ChoreoConstraintScope, ChoreoWaypoint, Constraints, PathCommand,
    VelocityBound,
};

fn wpt(translation: bool, heading: bool, count: usize) -> ChoreoWaypoint {
    ChoreoWaypoint {
        is_initial_guess: false,
        translation_constrained: translation,
        heading_constrained: heading,
        control_interval_count: count,
    }
}

fn guess(count: usize) -> ChoreoWaypoint {
    ChoreoWaypoint {
        is_initial_guess: true,
        translation_constrained: true,
        heading_constrained: true,
        control_interval_count: count,
    }
}


#[test]
fn plan_of_waypoints_only() {
    let path = vec![wpt(true, true, 40), wpt(true, false, 30), wpt(false, false, 20)];
    let plan = plan_trajectory(&path, &vec![], 0, 0);
    assert_eq!(
        plan.commands,
        vec![
            PathCommand::PoseWpt { wpt: 0, source: 0 },
            PathCommand::SgmtInitialGuessPoints { from_wpt: 0, first_guess: 1, end_guess: 1 },
            PathCommand::TranslationWpt { wpt: 1, source: 1 },
            PathCommand::SgmtInitialGuessPoints { from_wpt: 1, first_guess: 2, end_guess: 2 },
            PathCommand::EmptyWpt { wpt: 2, source: 2 },
            PathCommand::SetControlIntervalCounts,
            PathCommand::SetBumpers,
            PathCommand::SetDrivetrain,
        ]
    );
    assert_eq!(plan.control_interval_counts, vec![40, 30]);
}

#[test]
fn guess_points_join_their_segment() {
    let path = vec![wpt(true, true, 40), guess(10), guess(5), wpt(true, true, 30)];
    let plan = plan_trajectory(&path, &vec![], 0, 0);
    assert_eq!(
        plan.commands,
        vec![
            PathCommand::PoseWpt { wpt: 0, source: 0 },
            PathCommand::SgmtInitialGuessPoints { from_wpt: 0, first_guess: 1, end_guess: 3 },
            PathCommand::PoseWpt { wpt: 1, source: 3 },
            PathCommand::SetControlIntervalCounts,
            PathCommand::SetBumpers,
            PathCommand::SetDrivetrain,
        ]
    );
    assert_eq!(plan.control_interval_counts, vec![55]);
}

#[test]
fn guess_points_before_first_waypoint_are_dropped() {
    let path = vec![guess(7), wpt(true, true, 40), wpt(true, true, 30)];
    let plan = plan_trajectory(&path, &vec![], 0, 0);
    assert_eq!(
        plan.commands,
        vec![
            PathCommand::PoseWpt { wpt: 0, source: 1 },
            PathCommand::SgmtInitialGuessPoints { from_wpt: 0, first_guess: 2, end_guess: 2 },
            PathCommand::PoseWpt { wpt: 1, source: 2 },
            PathCommand::SetControlIntervalCounts,
            PathCommand::SetBumpers,
            PathCommand::SetDrivetrain,
        ]
    );
    assert_eq!(plan.control_interval_counts, vec![40]);
}

#[test]
fn trailing_guess_points_keep_the_last_count() {
    let path = vec![wpt(true, true, 40), wpt(true, true, 30), guess(8)];
    let plan = plan_trajectory(&path, &vec![], 0, 0);
    assert_eq!(plan.control_interval_counts, vec![40, 38]);
    assert_eq!(plan.commands.len(), 6);
}

#[test]
fn empty_path_plans_no_waypoint() {
    let plan = plan_trajectory(&vec![], &vec![], 0, 0);
    assert_eq!(plan.commands, vec![PathCommand::SetControlIntervalCounts, PathCommand::SetBumpers, PathCommand::SetDrivetrain]);
    assert!(plan.control_interval_counts.is_empty());
}

#[test]
fn waypoint_constraints_follow_fixed_scopes() {
    let path = vec![wpt(true, true, 40), guess(10), wpt(true, true, 30), wpt(true, true, 20)];
    let constraints = vec![
        Constraints::WptVelocityDirection { scope: ChoreoConstraintScope::Waypoint(2) },
        Constraints::WptZeroVelocity { scope: ChoreoConstraintScope::Waypoint(3) },
        Constraints::StopPoint { scope: ChoreoConstraintScope::Waypoint(0) },
        Constraints::MaxVelocity { scope: ChoreoConstraintScope::Waypoint(3) },
        Constraints::MaxVelocity { scope: ChoreoConstraintScope::Segment(0, 3) },
        Constraints::ZeroAngularVelocity { scope: ChoreoConstraintScope::Waypoint(2) },
        Constraints::ZeroAngularVelocity { scope: ChoreoConstraintScope::Segment(2, 3) },
        Constraints::PointAt { scope: ChoreoConstraintScope::Waypoint(3) },
        Constraints::PointAt { scope: ChoreoConstraintScope::Segment(0, 2) },
        // scopes of the wrong shape are ignored
        Constraints::WptVelocityDirection { scope: ChoreoConstraintScope::Segment(0, 2) },
        Constraints::StopPoint { scope: ChoreoConstraintScope::Segment(0, 2) },
        Constraints::StraightLine { scope: ChoreoConstraintScope::Waypoint(2) },
    ];
    let plan = plan_trajectory(&path, &constraints, 0, 0);
    let tail: Vec<PathCommand> = plan.commands[6..].to_vec();
    assert_eq!(plan.commands[5], PathCommand::SetControlIntervalCounts);
    assert_eq!(
        tail,
        vec![
            PathCommand::WptLinearVelocityDirection { wpt: 1, constraint: 0 },
            PathCommand::WptLinearVelocityMaxMagnitude { wpt: 2, bound: VelocityBound::Zero },
            PathCommand::WptLinearVelocityMaxMagnitude { wpt: 0, bound: VelocityBound::Zero },
            PathCommand::WptAngularVelocity { wpt: 0 },
            PathCommand::WptLinearVelocityMaxMagnitude { wpt: 2, bound: VelocityBound::OfConstraint(3) },
            PathCommand::SgmtLinearVelocityMaxMagnitude { from_wpt: 0, to_wpt: 2, constraint: 4 },
            PathCommand::WptAngularVelocity { wpt: 1 },
            PathCommand::SgmtAngularVelocity { from_wpt: 1, to_wpt: 2 },
            PathCommand::WptPointAt { wpt: 2, constraint: 7 },
            PathCommand::SgmtPointAt { from_wpt: 0, to_wpt: 1, constraint: 8 },
            PathCommand::SetBumpers,
            PathCommand::SetDrivetrain,
        ]
    );
    assert_eq!(plan.control_interval_counts, vec![50, 30]);
}

#[test]
fn straight_line_stops_at_inner_points() {
    let path = vec![wpt(true, true, 10), wpt(true, true, 10), wpt(true, true, 10), wpt(true, true, 10)];
    let constraints = vec![Constraints::StraightLine { scope: ChoreoConstraintScope::Segment(0, 3) }];
    let plan = plan_trajectory(&path, &constraints, 0, 0);
    let start = plan.commands.iter().position(|c| *c == PathCommand::SetControlIntervalCounts).unwrap() + 1;
    assert_eq!(
        plan.commands[start..].to_vec(),
        vec![
            PathCommand::SgmtLinearVelocityDirection { from_wpt: 0, to_wpt: 1 },
            PathCommand::WptLinearVelocityMaxMagnitude { wpt: 1, bound: VelocityBound::Zero },
            PathCommand::SgmtLinearVelocityDirection { from_wpt: 1, to_wpt: 2 },
            PathCommand::WptLinearVelocityMaxMagnitude { wpt: 2, bound: VelocityBound::Zero },
            PathCommand::SgmtLinearVelocityDirection { from_wpt: 2, to_wpt: 3 },
            PathCommand::SetBumpers,
            PathCommand::SetDrivetrain,
        ]
    );
}

#[test]
fn straight_line_over_guess_points_repeats_fixed_indices() {
    let path = vec![wpt(true, true, 10), guess(5), wpt(true, true, 10)];
    let constraints = vec![Constraints::StraightLine { scope: ChoreoConstraintScope::Segment(0, 2) }];
    let plan = plan_trajectory(&path, &constraints, 0, 0);
    let start = plan.commands.iter().position(|c| *c == PathCommand::SetControlIntervalCounts).unwrap() + 1;
    assert_eq!(
        plan.commands[start..].to_vec(),
        vec![
            PathCommand::SgmtLinearVelocityDirection { from_wpt: 0, to_wpt: 1 },
            PathCommand::WptLinearVelocityMaxMagnitude { wpt: 1, bound: VelocityBound::Zero },
            PathCommand::SgmtLinearVelocityDirection { from_wpt: 1, to_wpt: 1 },
            PathCommand::SetBumpers,
            PathCommand::SetDrivetrain,
        ]
    );
}

#[test]
fn empty_straight_line_adds_nothing() {
    let path = vec![wpt(true, true, 10), wpt(true, true, 10)];
    let constraints = vec![Constraints::StraightLine { scope: ChoreoConstraintScope::Segment(1, 1) }];
    let plan = plan_trajectory(&path, &constraints, 0, 0);
    assert_eq!(plan.commands.len(), 6);
}

#[test]
fn obstacles_span_all_waypoints() {
    let path = vec![wpt(true, true, 10), guess(3), wpt(true, true, 10), wpt(true, true, 10)];
    let plan = plan_trajectory(&path, &vec![], 2, 1);
    let start = plan.commands.iter().position(|c| *c == PathCommand::SetBumpers).unwrap() + 1;
    assert_eq!(
        plan.commands[start..].to_vec(),
        vec![
            PathCommand::SgmtCircleObstacle { from_wpt: 0, to_wpt: 2, obstacle: 0 },
            PathCommand::SgmtCircleObstacle { from_wpt: 0, to_wpt: 2, obstacle: 1 },
            PathCommand::SgmtPolygonObstacle { from_wpt: 0, to_wpt: 2, obstacle: 0 },
            PathCommand::SetDrivetrain,
        ]
    );
}

#[test]
fn waypoint_indices_are_fix_scope_of_path_indices() {
    let path = vec![guess(1), wpt(true, true, 1), guess(1), guess(1), wpt(false, false, 1), guess(1), wpt(true, false, 1)];
    let removed: Vec<usize> = (0..path.len()).filter(|i| path[*i].is_initial_guess).collect();
    let plan = plan_trajectory(&path, &vec![], 0, 0);
    for c in plan.commands.iter() {
        match *c {
            PathCommand::PoseWpt { wpt, source } | PathCommand::TranslationWpt { wpt, source } | PathCommand::EmptyWpt { wpt, source } => {
                assert_eq!(wpt, fix_scope(source, &removed));
            }
            _ => {}
        }
    }
    // counts: each segment between waypoints plus its guess points; the
    // guess before the first waypoint is dropped
    assert_eq!(plan.control_interval_counts, vec![3, 2]);
}

#[test]
fn overflowing_counts_are_refused() {
    let path = vec![wpt(true, true, usize::MAX), guess(1), wpt(true, true, 1)];
    assert!(checked_interval_counts(&path).is_none());
    assert!(try_plan_trajectory(&path, &vec![], 0, 0).is_none());
    // the count of a final waypoint is never used, so it cannot overflow
    let path = vec![wpt(true, true, 1), guess(usize::MAX - 1), wpt(true, true, usize::MAX)];
    assert_eq!(checked_interval_counts(&path), Some(vec![usize::MAX]));
}

#[test]
fn obstacles_need_a_waypoint() {
    let path = vec![guess(3)];
    assert_eq!(waypoint_count(&path), 0);
    assert!(try_plan_trajectory(&path, &vec![], 1, 0).is_none());
    assert!(try_plan_trajectory(&path, &vec![], 0, 1).is_none());
    let plan = try_plan_trajectory(&path, &vec![], 0, 0).unwrap();
    assert_eq!(
        plan.commands,
        vec![PathCommand::SetControlIntervalCounts, PathCommand::SetBumpers, PathCommand::SetDrivetrain]
    );
}

#[test]
fn try_plan_agrees_with_plan() {
    let path = vec![wpt(true, true, 40), guess(10), wpt(false, false, 30)];
    let constraints = vec![Constraints::PointAt { scope: ChoreoConstraintScope::Waypoint(2) }];
    let a = try_plan_trajectory(&path, &constraints, 1, 1).unwrap();
    let b = plan_trajectory(&path, &constraints, 1, 1);
    assert_eq!(a.commands, b.commands);
    assert_eq!(a.control_interval_counts, vec![50]);
}
