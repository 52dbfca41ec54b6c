use ohl_engine::reachability::{
    classify_frontier, report_without_collision, ChangeLevelStatus, FrontierBrush,
    ReachabilityConfig, ReportBuilder,
};
use ohl_engine::route_plan::EdgeKind;
use ohl_engine::walk::{landing_kind, Attempt, Cell, EdgeTry, GridWalk, PathStep, DIRECTION_COUNT};

fn cell(x: i32, y: i32) -> Cell {
    Cell { x, y, z: 0 }
}

#[test]
fn attempts_run_every_direction_from_every_cell_in_visit_order() {
    let mut walk = GridWalk::new(cell(0, 0), 100, false);
    for direction in 0..DIRECTION_COUNT {
        let attempt = walk.next_attempt().expect("the start cell is tried in every direction");
        assert_eq!(attempt, Attempt { origin: 0, direction });
        if direction == 0 {
            assert!(walk.record_landing(cell(1, 0), EdgeKind::Walk, false, false));
        } else {
            walk.record_blocked(&[]);
        }
    }
    let attempt = walk.next_attempt().expect("the second cell is tried next");
    assert_eq!(attempt, Attempt { origin: 1, direction: 0 });
    walk.record_blocked(&[]);
    for _ in 1..DIRECTION_COUNT {
        assert!(walk.next_attempt().is_some());
        walk.record_blocked(&[]);
    }
    assert_eq!(walk.next_attempt(), None, "every visited cell has been tried");
    assert_eq!(walk.cell_count(), 2);
    assert!(!walk.capped());
}

#[test]
fn a_cell_reached_twice_keeps_its_first_link() {
    let mut walk = GridWalk::new(cell(0, 0), 100, false);
    walk.next_attempt();
    assert!(walk.record_landing(cell(1, 0), EdgeKind::Step, false, false));
    walk.next_attempt();
    assert!(!walk.record_landing(cell(1, 0), EdgeKind::Jump, true, true));
    assert_eq!(walk.cell_count(), 2);
    let link = walk.link(1).expect("the second cell links back");
    assert_eq!(link.from, 0);
    assert_eq!(link.kind, EdgeKind::Step);
    assert_eq!(walk.long_drop_cells(), 0);
    assert_eq!(walk.long_jump_cells(), 0);
    assert_eq!(walk.link(0), None);
}

#[test]
fn the_walk_stops_at_its_cell_cap() {
    let mut walk = GridWalk::new(cell(0, 0), 2, false);
    walk.next_attempt();
    assert!(walk.record_landing(cell(0, 1), EdgeKind::Walk, false, true));
    assert_eq!(walk.next_attempt(), None, "a capped walk asks nothing more");
    assert!(walk.capped());
    assert_eq!(walk.long_drop_cells(), 1);
}

#[test]
fn frontier_brushes_are_kept_once_in_first_seen_order() {
    let mut walk = GridWalk::new(cell(0, 0), 100, false);
    walk.next_attempt();
    walk.record_blocked(&[7, 3, 7]);
    walk.next_attempt();
    walk.record_blocked(&[3, 9]);
    assert_eq!(walk.frontier_brushes(), vec![7, 3, 9]);
}

#[test]
fn a_path_walks_back_through_the_links_to_the_start() {
    let mut walk = GridWalk::new(cell(0, 0), 100, false);
    walk.next_attempt();
    walk.record_landing(cell(1, 0), EdgeKind::Walk, false, false);
    for _ in 1..DIRECTION_COUNT {
        walk.next_attempt();
        walk.record_blocked(&[]);
    }
    walk.next_attempt();
    walk.record_landing(cell(2, 0), EdgeKind::Jump, true, false);
    let path = walk.path_to(2);
    assert_eq!(
        path,
        vec![
            PathStep { cell: 0, kind: EdgeKind::Walk, via: false },
            PathStep { cell: 1, kind: EdgeKind::Walk, via: false },
            PathStep { cell: 2, kind: EdgeKind::Jump, via: true },
        ]
    );
    assert_eq!(walk.path_to(0), vec![PathStep { cell: 0, kind: EdgeKind::Walk, via: false }]);
    assert_eq!(walk.cell(2), cell(2, 0));
}

fn brush(id: u64, classname: &str, door: bool, breakable: bool, pushable: bool) -> FrontierBrush {
    FrontierBrush {
        brush: id,
        classname: classname.to_string(),
        use_openable: door,
        breakable_intact: breakable,
        pushable,
    }
}

#[test]
fn a_breakable_is_openable_only_when_armed_is_assumed() {
    let frontier = [brush(4, "func_breakable", false, true, false)];
    let unarmed = classify_frontier(&frontier, false);
    assert!(unarmed.openable_breakables.is_empty());
    assert!(!unarmed.classes[0].damage_openable);
    let armed = classify_frontier(&frontier, true);
    assert_eq!(armed.openable_breakables, vec![4]);
    assert!(armed.classes[0].damage_openable);
}

#[test]
fn a_pushable_is_openable_by_push_without_any_assumed_weapon() {
    let frontier = [brush(5, "func_pushable", false, false, true)];
    let classified = classify_frontier(&frontier, false);
    assert_eq!(classified.openable_pushables, vec![5]);
    assert!(classified.classes[0].push_openable);
}

#[test]
fn frontier_classes_are_grouped_and_ordered_by_classname() {
    let frontier = [
        brush(1, "func_wall", false, false, false),
        brush(2, "func_door", true, false, false),
        brush(3, "func_door", false, false, false),
        brush(4, "func_breakable", false, true, false),
    ];
    let classified = classify_frontier(&frontier, false);
    let names: Vec<&str> = classified.classes.iter().map(|c| c.classname.as_str()).collect();
    assert_eq!(names, vec!["func_breakable", "func_door", "func_wall"]);
    assert_eq!(classified.classes[1].instance_count, 2);
    assert!(classified.classes[1].use_openable);
    assert!(!classified.classes[2].use_openable);
    assert_eq!(classified.openable_doors, vec![2]);
}

#[test]
fn the_default_reachability_bounds() {
    let config = ReachabilityConfig::default();
    assert_eq!(config.cell_cap, 40_000);
    assert_eq!(config.max_rounds, 6);
    assert!(!config.assume_armed && !config.assume_longjump);
}

#[test]
fn no_collision_reports_one_empty_round() {
    let report = report_without_collision();
    assert_eq!(report.rounds.len(), 1);
    assert_eq!(report.rounds[0].reachable_cells, 0);
    assert_eq!(report.rounds[0].changelevel.distance_rounded, None);
}

#[test]
fn changelevel_becomes_reachable_only_after_the_door_opens() {
    let config = ReachabilityConfig::default();
    let mut builder = ReportBuilder::new(&config);

    let mut walk = GridWalk::new(cell(0, 0), config.cell_cap, false);
    walk.next_attempt();
    walk.record_blocked(&[42]);
    let frontier = [brush(42, "func_door", true, false, false)];
    let (detach, more) = builder.record_round(
        &walk,
        &frontier,
        ChangeLevelStatus { reachable: false, distance_rounded: Some(320) },
    );
    assert_eq!(detach, vec![42], "the door is detached for the next round");
    assert!(more);
    assert_eq!(builder.next_round(), 1);

    let walk = GridWalk::new(cell(0, 0), config.cell_cap, false);
    let (detach, more) = builder.record_round(
        &walk,
        &[],
        ChangeLevelStatus { reachable: true, distance_rounded: Some(320) },
    );
    assert!(detach.is_empty());
    assert!(!more, "a round that opens nothing is the last");
    let report = builder.finish();
    assert_eq!(report.rounds.len(), 2);
    assert!(!report.rounds[0].changelevel.reachable);
    assert_eq!(report.rounds[0].doors_opened, 1);
    assert!(report.rounds[1].changelevel.reachable);
    assert_eq!(report.rounds[1].round, 1);
}

#[test]
fn a_report_never_runs_more_rounds_than_its_limit() {
    let config = ReachabilityConfig { max_rounds: 0, ..ReachabilityConfig::default() };
    let mut builder = ReportBuilder::new(&config);
    let mut walk = GridWalk::new(cell(0, 0), 10, false);
    walk.next_attempt();
    walk.record_blocked(&[1]);
    let (detach, more) = builder.record_round(
        &walk,
        &[brush(1, "func_door", true, false, false)],
        ChangeLevelStatus { reachable: false, distance_rounded: None },
    );
    assert!(detach.is_empty(), "no round follows to detach the door for");
    assert!(!more, "a zero round cap still runs exactly one round");
    let report = builder.finish();
    assert_eq!(report.rounds.len(), 1);
    assert_eq!(report.rounds[0].doors_opened, 0, "no round follows to open the door for");
}

#[test]
fn the_last_round_reports_no_door_opened() {
    let config = ReachabilityConfig { max_rounds: 1, ..ReachabilityConfig::default() };
    let mut builder = ReportBuilder::new(&config);
    let mut walk = GridWalk::new(cell(0, 0), config.cell_cap, false);
    walk.next_attempt();
    walk.record_blocked(&[8]);
    let (detach, more) = builder.record_round(
        &walk,
        &[brush(8, "func_door", true, false, false), brush(9, "func_pushable", false, false, true)],
        ChangeLevelStatus { reachable: false, distance_rounded: None },
    );
    assert!(!more);
    assert!(detach.is_empty());
    let report = builder.finish();
    assert_eq!(report.rounds.len(), 1);
    assert_eq!(report.rounds[0].doors_opened, 0);
    assert_eq!(report.rounds[0].pushables_opened, 1);
    let names: Vec<&str> =
        report.rounds[0].frontier_classes.iter().map(|c| c.classname.as_str()).collect();
    assert_eq!(names, vec!["func_door", "func_pushable"]);
}

#[test]
fn an_unarmed_report_breaks_nothing() {
    let config = ReachabilityConfig::default();
    let mut builder = ReportBuilder::new(&config);
    let walk = GridWalk::new(cell(0, 0), config.cell_cap, false);
    let (detach, more) = builder.record_round(
        &walk,
        &[brush(4, "func_breakable", false, true, false)],
        ChangeLevelStatus { reachable: false, distance_rounded: None },
    );
    assert!(detach.is_empty());
    assert!(!more, "a lone breakable keeps blocking without the armed assumption");
    let report = builder.finish();
    assert_eq!(report.rounds[0].breakables_opened, 0);
    assert!(!report.rounds[0].frontier_classes[0].damage_openable);
}

#[test]
fn an_armed_report_breaks_the_breakable_for_the_next_round() {
    let config = ReachabilityConfig { assume_armed: true, ..ReachabilityConfig::default() };
    let mut builder = ReportBuilder::new(&config);
    let walk = GridWalk::new(cell(0, 0), config.cell_cap, false);
    let (detach, more) = builder.record_round(
        &walk,
        &[brush(4, "func_breakable", false, true, false)],
        ChangeLevelStatus { reachable: false, distance_rounded: None },
    );
    assert_eq!(detach, vec![4]);
    assert!(more);
    let walk = GridWalk::new(cell(0, 0), config.cell_cap, false);
    builder.record_round(&walk, &[], ChangeLevelStatus { reachable: true, distance_rounded: None });
    let report = builder.finish();
    assert_eq!(report.rounds[0].breakables_opened, 1);
    assert!(report.rounds[0].frontier_classes[0].damage_openable);
}

#[test]
fn long_jump_cells_count_only_in_a_walk_that_takes_the_long_jump() {
    let mut without = GridWalk::new(cell(0, 0), 100, false);
    assert_eq!(without.edge_to_try(0), Some(EdgeTry::Plain));
    assert_eq!(without.edge_to_try(1), Some(EdgeTry::Jump));
    assert_eq!(without.edge_to_try(2), None, "no long jump is tried without the assumption");
    without.next_attempt();
    assert!(without.record_landing(cell(3, 0), EdgeKind::Jump, false, false));
    assert_eq!(without.long_jump_cells(), 0);

    let mut with = GridWalk::new(cell(0, 0), 100, true);
    assert_eq!(with.edge_to_try(2), Some(EdgeTry::LongJump));
    assert_eq!(with.edge_to_try(3), None);
    with.next_attempt();
    let kind = landing_kind(EdgeTry::LongJump, EdgeKind::Walk);
    assert_eq!(kind, EdgeKind::LongJump);
    assert!(with.record_landing(cell(3, 0), kind, false, false));
    assert_eq!(with.long_jump_cells(), 1);
    assert_eq!(with.path_to(1)[1].kind, EdgeKind::LongJump);

    let config = ReachabilityConfig { assume_longjump: true, ..ReachabilityConfig::default() };
    let mut builder = ReportBuilder::new(&config);
    builder.record_round(&with, &[], ChangeLevelStatus { reachable: true, distance_rounded: None });
    assert_eq!(builder.finish().rounds[0].long_jump_cells, 1);
}

#[test]
fn a_landing_records_the_kind_of_the_edge_that_made_it() {
    assert_eq!(landing_kind(EdgeTry::Plain, EdgeKind::Step), EdgeKind::Step);
    assert_eq!(landing_kind(EdgeTry::Plain, EdgeKind::Drop), EdgeKind::Drop);
    assert_eq!(landing_kind(EdgeTry::Jump, EdgeKind::Walk), EdgeKind::Jump);
}
