use ferrostar::models::{
    GeographicCoordinates, NavigationError, Route, RouteStep, SpokenInstruction, UserLocation,
};
use ferrostar::navigation_controller::{
    NavigationController, NavigationControllerConfig, StepAdvanceMode, TripStatus,
};

fn c(lng: i64, lat: i64) -> GeographicCoordinates {
    GeographicCoordinates::new(lng, lat)
}

fn step(start: GeographicCoordinates) -> RouteStep {
    RouteStep {
        start_location: start,
        distance: 0,
        road_name: None,
        instruction: String::from("continue"),
        spoken_instructions: vec![],
        visual_instructions: vec![],
    }
}

fn fix(lng: i64, lat: i64, accuracy_mm: u64) -> UserLocation {
    UserLocation {
        coordinates: c(lng, lat),
        horizontal_accuracy: accuracy_mm,
        course_over_ground: None,
        timestamp: 0,
    }
}

/// One step along the equator, 900 microdegrees long (100.075 m).
fn single_step_route() -> Route {
    Route {
        geometry: vec![c(0, 0), c(900, 0)],
        waypoints: vec![c(0, 0), c(900, 0)],
        steps: vec![step(c(0, 0))],
    }
}

/// Three steps along the equator, 1000 microdegrees each.
fn three_step_route() -> Route {
    Route {
        geometry: vec![c(0, 0), c(1000, 0), c(2000, 0), c(3000, 0)],
        waypoints: vec![c(0, 0), c(3000, 0)],
        steps: vec![step(c(0, 0)), step(c(1000, 0)), step(c(2000, 0))],
    }
}

fn manual_config() -> NavigationControllerConfig {
    NavigationControllerConfig::new(StepAdvanceMode::Manual, 5_000, 5_000, 25_000).unwrap()
}

#[test]
fn config_rejects_ratio_above_one() {
    let r = NavigationControllerConfig::new(
        StepAdvanceMode::RelativeLineStringDistance {
            minimum_horizontal_accuracy_mm: 5_000,
            automatic_advance_ratio_ppm: 1_000_001,
        },
        5_000,
        5_000,
        25_000,
    );
    assert_eq!(r.unwrap_err(), NavigationError::InvalidConfig);
}

#[test]
fn route_with_one_geometry_point_is_invalid() {
    let route = Route { geometry: vec![c(0, 0)], waypoints: vec![], steps: vec![step(c(0, 0))] };
    let r = NavigationController::new(route, manual_config());
    assert_eq!(r.err(), Some(NavigationError::InvalidRoute));
}

#[test]
fn route_with_no_steps_is_invalid() {
    let route = Route { geometry: vec![c(0, 0), c(900, 0)], waypoints: vec![], steps: vec![] };
    let r = NavigationController::new(route, manual_config());
    assert_eq!(r.err(), Some(NavigationError::InvalidRoute));
}

#[test]
fn route_with_step_off_geometry_is_invalid() {
    let route = Route {
        geometry: vec![c(0, 0), c(1000, 0), c(2000, 0)],
        waypoints: vec![],
        steps: vec![step(c(0, 0)), step(c(1500, 0))],
    };
    let r = NavigationController::new(route, manual_config());
    assert_eq!(r.err(), Some(NavigationError::InvalidRoute));
}

#[test]
fn route_with_step_at_last_vertex_only_is_invalid() {
    // The second step would start at the final geometry point, leaving it
    // no geometry of its own.
    let route = Route {
        geometry: vec![c(0, 0), c(1000, 0)],
        waypoints: vec![],
        steps: vec![step(c(0, 0)), step(c(1000, 0))],
    };
    let r = NavigationController::new(route, manual_config());
    assert_eq!(r.err(), Some(NavigationError::InvalidRoute));
}

#[test]
fn first_update_starts_navigating() {
    let mut nav = NavigationController::new(three_step_route(), manual_config()).unwrap();
    let upd = nav.update_user_location(fix(10, 0, 3_000));
    assert_eq!(upd.status, TripStatus::Navigating);
    assert_eq!(upd.active_step_index, 0);
}

#[test]
fn manual_mode_never_auto_advances() {
    // A fix exactly at the final geometry point of step 0 must not advance.
    let mut nav = NavigationController::new(three_step_route(), manual_config()).unwrap();
    let upd = nav.update_user_location(fix(1000, 0, 1_000));
    assert_eq!(upd.active_step_index, 0);
    assert_eq!(upd.status, TripStatus::Navigating);
    // An explicit advance then moves exactly one step.
    let upd2 = nav.advance_to_next_step();
    assert_eq!(upd2.active_step_index, 1);
    assert_eq!(upd2.status, TripStatus::Navigating);
}

#[test]
fn deviation_flag_splits_at_threshold() {
    // Threshold 25 m; 234 microdegrees of latitude is 26.019 m (about one
    // meter beyond), 216 microdegrees is 24.018 m (about one meter short).
    let mut nav = NavigationController::new(single_step_route(), manual_config()).unwrap();
    let over = nav.update_user_location(fix(450, 234, 1_000));
    assert!(over.deviation);
    // A deviating update reports the raw location, not a snapped one.
    assert_eq!(over.snapped_location, c(450, 234));
    let under = nav.update_user_location(fix(450, 216, 1_000));
    assert!(!under.deviation);
    assert_eq!(under.snapped_location, c(450, 0));
}

#[test]
fn deviation_does_not_advance_step() {
    let mut nav = NavigationController::new(three_step_route(), manual_config()).unwrap();
    let upd = nav.update_user_location(fix(500, 500, 1_000));
    assert!(upd.deviation);
    assert_eq!(upd.active_step_index, 0);
    assert_eq!(upd.status, TripStatus::Navigating);
}

fn distance_to_end_config(threshold_mm: u64, min_acc_mm: u64) -> NavigationControllerConfig {
    NavigationControllerConfig::new(
        StepAdvanceMode::DistanceToEndOfStep {
            distance_mm: threshold_mm,
            minimum_horizontal_accuracy_mm: min_acc_mm,
        },
        5_000,
        5_000,
        25_000,
    )
    .unwrap()
}

#[test]
fn distance_to_end_advances_exactly_at_threshold() {
    // Step length 100.075 m, threshold 10 m. At 91.068 m along, 9.007 m
    // remain: advance. The route has one step, so advancing arrives.
    let mut nav =
        NavigationController::new(single_step_route(), distance_to_end_config(10_000, 5_000))
            .unwrap();
    let upd = nav.update_user_location(fix(819, 0, 3_000));
    assert_eq!(upd.status, TripStatus::Arrived);
}

#[test]
fn distance_to_end_does_not_advance_before_threshold() {
    // At 88.955 m along, 11.120 m remain: no advance.
    let mut nav =
        NavigationController::new(single_step_route(), distance_to_end_config(10_000, 5_000))
            .unwrap();
    let upd = nav.update_user_location(fix(800, 0, 3_000));
    assert_eq!(upd.status, TripStatus::Navigating);
    assert_eq!(upd.active_step_index, 0);
    assert_eq!(upd.remaining_step_distance_mm, 11_120);
}

#[test]
fn low_accuracy_fix_never_advances() {
    // The same in-threshold fix with 50 m accuracy must not advance.
    let mut nav =
        NavigationController::new(single_step_route(), distance_to_end_config(10_000, 5_000))
            .unwrap();
    let upd = nav.update_user_location(fix(819, 0, 50_000));
    assert_eq!(upd.status, TripStatus::Navigating);
    assert_eq!(upd.active_step_index, 0);
}

fn relative_config(ratio_ppm: u32, min_acc_mm: u64) -> NavigationControllerConfig {
    NavigationControllerConfig::new(
        StepAdvanceMode::RelativeLineStringDistance {
            minimum_horizontal_accuracy_mm: min_acc_mm,
            automatic_advance_ratio_ppm: ratio_ppm,
        },
        5_000,
        5_000,
        25_000,
    )
    .unwrap()
}

#[test]
fn relative_distance_advances_at_ratio() {
    // 95.627 m of 100.075 m is past 95%; 94.515 m is short of it.
    let mut nav =
        NavigationController::new(single_step_route(), relative_config(950_000, 5_000)).unwrap();
    let before = nav.update_user_location(fix(850, 0, 3_000));
    assert_eq!(before.status, TripStatus::Navigating);
    let after = nav.update_user_location(fix(860, 0, 3_000));
    assert_eq!(after.status, TripStatus::Arrived);
}

#[test]
fn relative_distance_respects_accuracy_gate() {
    let mut nav =
        NavigationController::new(single_step_route(), relative_config(950_000, 5_000)).unwrap();
    let upd = nav.update_user_location(fix(860, 0, 50_000));
    assert_eq!(upd.status, TripStatus::Navigating);
}

#[test]
fn remaining_distances_are_consistent() {
    // Each of the three steps measures 111.194 m. Snapped at 55.597 m along
    // step 0: step remainder 55.597 m, total remainder adds two full steps.
    let mut nav = NavigationController::new(three_step_route(), manual_config()).unwrap();
    let upd = nav.update_user_location(fix(500, 0, 1_000));
    assert_eq!(upd.remaining_step_distance_mm, 111_194 - 55_597);
    assert_eq!(upd.remaining_total_distance_mm, (111_194 - 55_597) + 111_194 + 111_194);
}

#[test]
fn duplicate_fix_gives_identical_update() {
    let mut nav = NavigationController::new(three_step_route(), manual_config()).unwrap();
    let u1 = nav.update_user_location(fix(700, 30, 2_000));
    let u2 = nav.update_user_location(fix(700, 30, 2_000));
    assert_eq!(u2.status, u1.status);
    assert_eq!(u2.active_step_index, u1.active_step_index);
    assert_eq!(u2.remaining_step_distance_mm, u1.remaining_step_distance_mm);
    assert_eq!(u2.remaining_total_distance_mm, u1.remaining_total_distance_mm);
    assert_eq!(u2.snapped_location, u1.snapped_location);
    assert_eq!(u2.deviation, u1.deviation);
}

#[test]
fn step_index_is_monotonic_across_updates() {
    let mut nav =
        NavigationController::new(three_step_route(), distance_to_end_config(20_000, 5_000))
            .unwrap();
    let mut last: usize = 0;
    let fixes = [0i64, 300, 600, 900, 1000, 1300, 1900, 2000, 2400, 2900];
    for lng in fixes {
        let upd = nav.update_user_location(fix(lng, 0, 1_000));
        assert!(upd.active_step_index >= last);
        assert!(upd.active_step_index <= last + 1);
        last = upd.active_step_index;
    }
}

#[test]
fn spoken_instruction_fires_exactly_once() {
    // A spoken instruction at the 50 m mark of a 100 m step, trigger radius
    // 5 m. The 40 m fix is 10.007 m away (not due), the 50 m fix is due,
    // and the 60 m fix must not repeat it.
    let mut route = single_step_route();
    route.steps[0].spoken_instructions.push(SpokenInstruction {
        text: String::from("turn right"),
        ssml: None,
        trigger_at: c(450, 0),
    });
    let mut nav = NavigationController::new(route, manual_config()).unwrap();
    let at_40 = nav.update_user_location(fix(360, 0, 1_000));
    assert_eq!(at_40.spoken_instructions.len(), 0);
    let at_50 = nav.update_user_location(fix(450, 0, 1_000));
    assert_eq!(at_50.spoken_instructions.len(), 1);
    assert_eq!(at_50.spoken_instructions[0].text, "turn right");
    let at_60 = nav.update_user_location(fix(540, 0, 1_000));
    assert_eq!(at_60.spoken_instructions.len(), 0);
    // Even moving away and back does not re-announce.
    let back_at_50 = nav.update_user_location(fix(450, 0, 1_000));
    assert_eq!(back_at_50.spoken_instructions.len(), 0);
}

#[test]
fn next_step_instruction_can_fire_early_and_is_not_repeated() {
    // An instruction of step 1 near the shared boundary becomes due while
    // step 0 is still active, and is not reissued after advancing.
    let mut route = three_step_route();
    route.steps[1].spoken_instructions.push(SpokenInstruction {
        text: String::from("merge"),
        ssml: None,
        trigger_at: c(1010, 0),
    });
    let mut nav = NavigationController::new(route, manual_config()).unwrap();
    let near_boundary = nav.update_user_location(fix(1000, 0, 1_000));
    assert_eq!(near_boundary.active_step_index, 0);
    assert_eq!(near_boundary.spoken_instructions.len(), 1);
    nav.advance_to_next_step();
    let on_step_1 = nav.update_user_location(fix(1010, 0, 1_000));
    assert_eq!(on_step_1.active_step_index, 1);
    assert_eq!(on_step_1.spoken_instructions.len(), 0);
}

#[test]
fn advance_before_any_fix_starts_the_session() {
    let mut nav = NavigationController::new(three_step_route(), manual_config()).unwrap();
    let upd = nav.advance_to_next_step();
    assert_eq!(upd.status, TripStatus::Navigating);
    assert_eq!(upd.active_step_index, 1);
    // With no fix seen yet, the whole of steps 1 and 2 remains.
    assert_eq!(upd.remaining_step_distance_mm, 111_194);
    assert_eq!(upd.remaining_total_distance_mm, 2 * 111_194);
}

#[test]
fn advance_past_last_step_arrives() {
    let mut nav = NavigationController::new(single_step_route(), manual_config()).unwrap();
    let upd = nav.advance_to_next_step();
    assert_eq!(upd.status, TripStatus::Arrived);
    // Terminal: further updates return the unchanged terminal snapshot.
    let after = nav.update_user_location(fix(100, 0, 1_000));
    assert_eq!(after.status, TripStatus::Arrived);
    assert_eq!(after.remaining_total_distance_mm, 0);
    assert!(!after.deviation);
    // Advancing after arrival has no effect.
    let again = nav.advance_to_next_step();
    assert_eq!(again.status, TripStatus::Arrived);
}

#[test]
fn stop_is_terminal_and_idempotent() {
    let mut nav = NavigationController::new(three_step_route(), manual_config()).unwrap();
    nav.update_user_location(fix(10, 0, 1_000));
    nav.stop();
    let upd = nav.update_user_location(fix(500, 0, 1_000));
    assert_eq!(upd.status, TripStatus::Stopped);
    nav.stop();
    let upd2 = nav.update_user_location(fix(700, 0, 1_000));
    assert_eq!(upd2.status, TripStatus::Stopped);
    // Advancing a stopped session has no effect either.
    let upd3 = nav.advance_to_next_step();
    assert_eq!(upd3.status, TripStatus::Stopped);
}

#[test]
fn stop_does_not_override_arrival() {
    let mut nav = NavigationController::new(single_step_route(), manual_config()).unwrap();
    nav.advance_to_next_step();
    nav.stop();
    let upd = nav.update_user_location(fix(0, 0, 1_000));
    assert_eq!(upd.status, TripStatus::Arrived);
}

#[test]
fn snapping_past_step_boundary_is_not_deviation() {
    // A fix already well onto step 1 while step 0 is active: the step-local
    // projection clamps to the boundary, farther than the threshold, but
    // the whole remaining route covers it, so no deviation is flagged.
    let mut nav = NavigationController::new(three_step_route(), manual_config()).unwrap();
    let upd = nav.update_user_location(fix(1500, 0, 1_000));
    assert!(!upd.deviation);
    assert_eq!(upd.active_step_index, 0);
    assert_eq!(upd.snapped_location, c(1500, 0));
}
