use ferrostar::models::{
    CourseOverGround, GeographicCoordinates, ManeuverModifier, ManeuverType,
    maneuver_modifier_from_str, maneuver_type_from_str,
};

#[test]
fn course_over_ground_new_sets_fields() {
    let cog = CourseOverGround::new(90, 5);
    assert_eq!(cog.degrees, 90);
    assert_eq!(cog.accuracy, 5);
}

#[test]
fn clamped_is_identity_in_range() {
    let a = GeographicCoordinates::new(-73_000_000, 40_000_000);
    assert_eq!(a.clamped(), a);
}

#[test]
fn clamped_moves_out_of_range_components_to_bounds() {
    let a = GeographicCoordinates::new(200_000_000, -95_000_000);
    let r = a.clamped();
    assert_eq!(r, GeographicCoordinates::new(180_000_000, -90_000_000));
}

#[test]
fn maneuver_type_vocabulary() {
    assert_eq!(maneuver_type_from_str("turn"), Some(ManeuverType::Turn));
    assert_eq!(maneuver_type_from_str("merge"), Some(ManeuverType::Merge));
    assert_eq!(maneuver_type_from_str("depart"), Some(ManeuverType::Depart));
    assert_eq!(maneuver_type_from_str("arrive"), Some(ManeuverType::Arrive));
    assert_eq!(maneuver_type_from_str("fork"), Some(ManeuverType::Fork));
    assert_eq!(maneuver_type_from_str("off ramp"), Some(ManeuverType::OffRamp));
    assert_eq!(maneuver_type_from_str("roundabout"), Some(ManeuverType::Roundabout));
}

#[test]
fn maneuver_type_unknown_is_decode_failure() {
    assert_eq!(maneuver_type_from_str("teleport"), None);
    assert_eq!(maneuver_type_from_str(""), None);
    assert_eq!(maneuver_type_from_str("Turn"), None);
}

#[test]
fn maneuver_modifier_vocabulary() {
    assert_eq!(maneuver_modifier_from_str("uturn"), Some(ManeuverModifier::UTurn));
    assert_eq!(maneuver_modifier_from_str("sharp right"), Some(ManeuverModifier::SharpRight));
    assert_eq!(maneuver_modifier_from_str("right"), Some(ManeuverModifier::Right));
    assert_eq!(maneuver_modifier_from_str("slight right"), Some(ManeuverModifier::SlightRight));
    assert_eq!(maneuver_modifier_from_str("straight"), Some(ManeuverModifier::Straight));
    assert_eq!(maneuver_modifier_from_str("slight left"), Some(ManeuverModifier::SlightLeft));
    assert_eq!(maneuver_modifier_from_str("left"), Some(ManeuverModifier::Left));
    assert_eq!(maneuver_modifier_from_str("sharp left"), Some(ManeuverModifier::SharpLeft));
}

#[test]
fn maneuver_modifier_unknown_is_decode_failure() {
    assert_eq!(maneuver_modifier_from_str("hairpin"), None);
    assert_eq!(maneuver_modifier_from_str("sharp  left"), None);
}
