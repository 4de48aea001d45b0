use ferrostar::models::GeographicCoordinates;
use ferrostar::geometry::{
    bearing_mdeg, distance_mm, isqrt, project_onto_path, project_onto_segment,
    remaining_distance_mm,
};

fn c(lng: i64, lat: i64) -> GeographicCoordinates {
    GeographicCoordinates::new(lng, lat)
}

#[test]
fn isqrt_exact_and_floor() {
    assert_eq!(isqrt(0), 0);
    assert_eq!(isqrt(1), 1);
    assert_eq!(isqrt(2), 1);
    assert_eq!(isqrt(144), 12);
    assert_eq!(isqrt(145), 12);
    assert_eq!(isqrt(u64::MAX), 4_294_967_295);
}

#[test]
fn distance_zero_for_equal_points() {
    let a = c(123_456, -654_321);
    assert_eq!(distance_mm(a, a), 0);
}

#[test]
fn distance_along_equator() {
    // 900 microdegrees of longitude at the equator: about 100.075 m.
    assert_eq!(distance_mm(c(0, 0), c(900, 0)), 100_075);
}

#[test]
fn distance_along_meridian_matches_equator() {
    assert_eq!(distance_mm(c(0, 0), c(0, 900)), 100_075);
}

#[test]
fn distance_is_symmetric() {
    let a = c(5_000_000, 45_000_000);
    let b = c(5_030_000, 44_970_000);
    assert_eq!(distance_mm(a, b), distance_mm(b, a));
}

#[test]
fn distance_shrinks_with_latitude() {
    // The same longitude difference spans less ground away from the equator.
    let at_equator = distance_mm(c(0, 0), c(900, 0));
    let at_60_north = distance_mm(c(0, 60_000_000), c(900, 60_000_000));
    assert!(at_60_north < at_equator);
    // cos(60 deg) = 0.5, so roughly half.
    assert!(at_60_north > at_equator * 45 / 100);
    assert!(at_60_north < at_equator * 55 / 100);
}

#[test]
fn projection_at_forty_percent_of_straight_segment() {
    // A point exactly at the 40% mark by interpolation.
    let a = c(0, 0);
    let b = c(1000, 500);
    let p = c(400, 200);
    let r = project_onto_segment(p, a, b);
    assert_eq!(r.fraction_ppm, 400_000);
    assert_eq!(r.distance_mm, 0);
    assert_eq!(r.point, p);
}

#[test]
fn projection_clamps_to_segment_ends() {
    let a = c(0, 0);
    let b = c(1000, 0);
    let before = project_onto_segment(c(-500, 0), a, b);
    assert_eq!(before.fraction_ppm, 0);
    assert_eq!(before.point, a);
    let after = project_onto_segment(c(1500, 0), a, b);
    assert_eq!(after.fraction_ppm, 1_000_000);
    assert_eq!(after.point, b);
}

#[test]
fn projection_perpendicular_distance() {
    // 234 microdegrees of latitude off the equator: about 26.019 m.
    let r = project_onto_segment(c(450, 234), c(0, 0), c(900, 0));
    assert_eq!(r.point, c(450, 0));
    assert_eq!(r.distance_mm, 26_019);
}

#[test]
fn path_projection_needs_two_points() {
    assert!(project_onto_path(c(0, 0), &vec![]).is_none());
    assert!(project_onto_path(c(0, 0), &vec![c(0, 0)]).is_none());
    assert!(project_onto_path(c(0, 0), &vec![c(0, 0), c(900, 0)]).is_some());
}

#[test]
fn path_projection_ties_break_earliest() {
    // The query point is equally close to the shared vertex of both
    // segments; the earlier segment must win.
    let path = vec![c(0, 0), c(100, 0), c(200, 0)];
    let r = project_onto_path(c(100, 50), &path).unwrap();
    assert_eq!(r.segment_index, 0);
    assert_eq!(r.point, c(100, 0));
}

#[test]
fn path_projection_cumulative_distance() {
    let path = vec![c(0, 0), c(900, 0)];
    let r = project_onto_path(c(819, 0), &path).unwrap();
    assert_eq!(r.distance_mm, 0);
    assert_eq!(r.cumulative_mm, 91_068);
}

#[test]
fn bearing_cardinal_directions() {
    let o = c(0, 0);
    assert_eq!(bearing_mdeg(o, c(0, 900)), 0);
    assert_eq!(bearing_mdeg(o, c(900, 0)), 90_000);
    assert_eq!(bearing_mdeg(o, c(0, -900)), 180_000);
    assert_eq!(bearing_mdeg(o, c(-900, 0)), 270_000);
}

#[test]
fn bearing_diagonals_and_identity() {
    let o = c(0, 0);
    assert_eq!(bearing_mdeg(o, o), 0);
    // Fixtures symmetric about the equator keep the cosine scale exactly 1.
    assert_eq!(bearing_mdeg(c(0, -450), c(900, 450)), 45_000);
    assert_eq!(bearing_mdeg(c(0, -450), c(-900, 450)), 315_000);
    // atan(1/2) approximated: 26.410 degrees (true value 26.565).
    assert_eq!(bearing_mdeg(c(0, -500), c(500, 500)), 26_410);
    assert!(bearing_mdeg(c(10, 20), c(-340, -7_777)) < 360_000);
}

#[test]
fn remaining_distance_subtracts_and_floors() {
    let path = vec![c(0, 0), c(900, 0)];
    assert_eq!(remaining_distance_mm(&path, 0), 100_075);
    assert_eq!(remaining_distance_mm(&path, 40_000), 60_075);
    assert_eq!(remaining_distance_mm(&path, 200_000), 0);
    assert_eq!(remaining_distance_mm(&vec![], 5), 0);
}
