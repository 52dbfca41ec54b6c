use ohl_engine::route_plan::{
    attribute_doors, is_goal, outline_route, plan_exhausted, plan_precheck, plan_round_limit,
    plan_round_step, route_pieces, DoorSighting, EdgeKind, PlanConfig, PlanError, PlanRejection,
    PlanStep, RoutePiece, StringPull, DEFAULT_GOAL_CLASSNAME,
};

fn sighting(inside: &[bool], in_reach: &[bool]) -> DoorSighting {
    DoorSighting { inside: inside.to_vec(), in_reach: in_reach.to_vec() }
}

#[test]
fn only_ordinary_ground_movement_may_be_straightened() {
    assert!(EdgeKind::Walk.is_ground_movement());
    assert!(EdgeKind::Step.is_ground_movement());
    assert!(!EdgeKind::Drop.is_ground_movement());
    assert!(!EdgeKind::Jump.is_ground_movement());
    assert!(!EdgeKind::LongJump.is_ground_movement());
}

#[test]
fn the_default_plan_config_reuses_the_reachability_bounds() {
    let config = PlanConfig::default();
    assert_eq!(config.cell_cap, 40_000);
    assert_eq!(config.max_rounds, 6);
    assert_eq!(config.goal_classname, DEFAULT_GOAL_CLASSNAME);
    assert_eq!(config.goal_classname, "trigger_changelevel");
    assert!(config.avoid_goal_maps.is_empty());
    assert!(!config.assume_longjump);
}

#[test]
fn every_plan_error_has_its_fixed_message() {
    assert_eq!(PlanError::NoCollision.message(), "the map has no usable collision hulls");
    assert_eq!(
        PlanError::NoGoalEntity.message(),
        "no entity of the goal classname declares a brush volume"
    );
    assert_eq!(
        PlanError::GoalUnreachable.message(),
        "the bounded walk did not reach the goal, even with every reachable door opened"
    );
    assert_eq!(
        PlanError::UnsupportedEdge.message(),
        "the route depends on an edge the scripted-input grammar cannot express"
    );
}

#[test]
fn a_rejection_reads_as_its_reason_and_its_aggregates() {
    assert_eq!(
        PlanRejection::new(PlanError::NoGoalEntity, 0, 0).message(),
        "no entity of the goal classname declares a brush volume (the search reached 0 cell(s) in 0 round(s))"
    );
    assert_eq!(
        PlanRejection::new(PlanError::GoalUnreachable, 40_000, 6).message(),
        "the bounded walk did not reach the goal, even with every reachable door opened (the search reached 40000 cell(s) in 6 round(s))"
    );
    assert!(PlanRejection::new(PlanError::NoCollision, 1_234_567_890, 10)
        .message()
        .ends_with("(the search reached 1234567890 cell(s) in 10 round(s))"));
}

#[test]
fn a_rejection_carries_the_aggregates_it_was_given() {
    let rejection = PlanRejection::new(PlanError::GoalUnreachable, 12, 3);
    assert_eq!(rejection.error, PlanError::GoalUnreachable);
    assert_eq!(rejection.cells, 12);
    assert_eq!(rejection.rounds, 3);
}

#[test]
fn a_goal_leading_back_to_a_visited_map_is_not_a_goal() {
    let config = PlanConfig { avoid_goal_maps: vec!["OhlPlanNext".to_string()], ..PlanConfig::default() };
    assert!(!is_goal(&config, "trigger_changelevel", Some("ohlplannext")));
    let goals = usize::from(is_goal(&config, "trigger_changelevel", Some("ohlplannext")));
    assert_eq!(
        plan_precheck(true, goals).map(|rejection| rejection.error),
        Some(PlanError::NoGoalEntity),
        "the fixture's only changelevel names the avoided map"
    );
    assert!(
        is_goal(&PlanConfig::default(), "trigger_changelevel", Some("ohlplannext")),
        "and without that exclusion it is a goal as before"
    );
}

#[test]
fn a_missing_goal_classname_is_a_fixed_failure() {
    let config = PlanConfig { goal_classname: "func_button".to_string(), ..PlanConfig::default() };
    let goals = usize::from(is_goal(&config, "trigger_changelevel", Some("ohlplannext")));
    assert_eq!(plan_precheck(true, goals), Some(PlanRejection::new(PlanError::NoGoalEntity, 0, 0)));
}

#[test]
fn goal_classnames_match_without_regard_to_ascii_case() {
    let config = PlanConfig::default();
    assert!(is_goal(&config, "TRIGGER_ChangeLevel", None));
    assert!(!is_goal(&config, "trigger_changelevel2", None));
}

#[test]
fn a_map_without_collision_is_refused_before_anything_else() {
    assert_eq!(plan_precheck(false, 0), Some(PlanRejection::new(PlanError::NoCollision, 0, 0)));
    assert_eq!(plan_precheck(true, 2), None);
}

#[test]
fn each_round_builds_opens_settles_or_gives_up() {
    assert_eq!(
        plan_round_step(0, 50, Some(7), 3, Some(2)),
        PlanStep::Build { target: 7, reaches_goal: true }
    );
    assert_eq!(plan_round_step(0, 50, None, 3, Some(2)), PlanStep::OpenDoors);
    assert_eq!(
        plan_round_step(1, 50, None, 0, Some(2)),
        PlanStep::Build { target: 2, reaches_goal: false }
    );
    assert_eq!(
        plan_round_step(1, 1, None, 0, None),
        PlanStep::Reject(PlanRejection::new(PlanError::GoalUnreachable, 1, 2))
    );
}

#[test]
fn an_exhausted_search_reports_the_round_limit() {
    assert_eq!(plan_round_limit(0), 1);
    assert_eq!(plan_round_limit(6), 6);
    assert_eq!(plan_exhausted(0, 9), PlanRejection::new(PlanError::GoalUnreachable, 9, 1));
    assert_eq!(plan_exhausted(4, 9), PlanRejection::new(PlanError::GoalUnreachable, 9, 4));
}

#[test]
fn a_door_is_pressed_from_the_last_point_in_reach_before_its_leaf() {
    let door = sighting(
        &[false, false, false, true, false],
        &[false, true, true, true, true],
    );
    let marks = attribute_doors(5, &[door]);
    assert_eq!(marks.usable_len, 5);
    assert_eq!(marks.presses, vec![None, None, Some(0), None, None]);
}

#[test]
fn a_door_crossed_with_no_point_in_reach_cuts_the_route() {
    let reachable = sighting(&[false, false, false, false, true, false], &[false, true, false, false, false, false]);
    let unreachable = sighting(&[false, false, true, false, false, false], &[false; 6]);
    let marks = attribute_doors(6, &[reachable, unreachable]);
    assert_eq!(marks.usable_len, 2, "the route walks up to the unreachable leaf");
    assert_eq!(marks.presses, vec![None, Some(0)]);
}

#[test]
fn a_press_at_or_past_the_cut_is_dropped_and_a_later_door_replaces_an_earlier_one() {
    let first = sighting(&[false, false, true, false], &[true, false, false, false]);
    let second = sighting(&[false, true, false, false], &[true, false, false, false]);
    let marks = attribute_doors(4, &[first, second]);
    assert_eq!(marks.presses, vec![Some(1), None, None, None]);

    let pressed_late = sighting(&[false, false, false, true], &[false, false, true, false]);
    let cut_early = sighting(&[false, true, false, false], &[false; 4]);
    let marks = attribute_doors(4, &[pressed_late, cut_early]);
    assert_eq!(marks.usable_len, 1);
    assert_eq!(marks.presses, vec![None]);
}

#[test]
fn a_door_the_path_never_crosses_is_ignored() {
    let marks = attribute_doors(3, &[sighting(&[false; 3], &[true; 3])]);
    assert_eq!(marks.usable_len, 3);
    assert_eq!(marks.presses, vec![None, None, None]);
}

#[test]
fn a_route_needing_the_long_jump_edge_is_refused() {
    let kinds = [EdgeKind::Walk, EdgeKind::LongJump, EdgeKind::Walk];
    assert_eq!(
        outline_route(&kinds, &[], true, 30, 2),
        Err(PlanRejection::new(PlanError::UnsupportedEdge, 30, 2))
    );
}

#[test]
fn an_outline_counts_presses_and_a_cut_route_does_not_reach_the_goal() {
    let kinds = [EdgeKind::Walk, EdgeKind::Walk, EdgeKind::Step, EdgeKind::Walk];
    let door = sighting(&[false, false, true, false], &[false, true, false, false]);
    let outline = outline_route(&kinds, &[door], true, 40, 2).expect("no long jump");
    assert!(outline.reaches_goal);
    assert_eq!(outline.doors, 1);
    assert_eq!(outline.path_points, 4);

    let blocked = sighting(&[false, false, true, false], &[false; 4]);
    let outline = outline_route(&kinds, &[blocked], true, 40, 2).expect("no long jump");
    assert!(!outline.reaches_goal, "a cut route stops short of the goal");
    assert_eq!(outline.path_points, 2);
    assert_eq!(outline.doors, 0);
}

#[test]
fn a_route_is_split_at_its_presses() {
    let pieces = route_pieces(&[None, None, Some(0), None, Some(1), None]);
    assert_eq!(
        pieces,
        vec![
            RoutePiece::Walk { start: 0, end: 3 },
            RoutePiece::Press { at: 2, door: 0 },
            RoutePiece::Walk { start: 2, end: 5 },
            RoutePiece::Press { at: 4, door: 1 },
            RoutePiece::Walk { start: 4, end: 6 },
        ]
    );
    assert_eq!(route_pieces(&[]), vec![RoutePiece::Walk { start: 0, end: 0 }]);
}

/// Runs the straightening with `walkable(from, to)` answering each query.
fn pull(ground: &[bool], walkable: impl Fn(usize, usize) -> bool) -> Vec<usize> {
    let mut pull = StringPull::new(ground.to_vec());
    while let Some((from, end)) = pull.query() {
        let answers: Vec<bool> = (from + 1..end).map(|to| walkable(from, to)).collect();
        pull.advance(&answers);
    }
    pull.finish()
}

#[test]
fn straightening_jumps_to_the_furthest_walkable_point() {
    let ground = [true; 6];
    assert_eq!(pull(&ground, |_, _| true), vec![0, 5]);
    assert_eq!(pull(&ground, |from, to| to <= from + 2), vec![0, 2, 4, 5]);
    assert_eq!(pull(&ground, |_, _| false), vec![0, 1, 2, 3, 4, 5]);
    assert!(pull(&[], |_, _| true).is_empty());
    assert_eq!(pull(&[true], |_, _| true), vec![0]);
}

#[test]
fn straightening_never_skips_a_jump_or_a_fall() {
    let ground = [true, true, false, true, true, true];
    assert_eq!(pull(&ground, |_, _| true), vec![0, 1, 2, 5]);
}
