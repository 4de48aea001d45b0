//! Value types shared by the whole library: coordinates, location fixes, the
//! route model, instructions, and the maneuver vocabulary.
//!
//! Geographic coordinates are held in integer microdegrees and distances in
//! integer millimeters, so that every computation in this crate is exact and
//! deterministic.

use vstd::prelude::*;

verus! {

/// A WGS84 position. `lng` and `lat` are in microdegrees (one millionth of
/// a degree, about 0.11 m of latitude), positive east and north.
#[derive(Clone, Copy, PartialEq, Eq, Structural, Debug)]
pub struct GeographicCoordinates {
    pub lng: i64,
    pub lat: i64,
}

/// Longitude bound in microdegrees: 180 degrees.
pub const MAX_LNG_UDEG: i64 = 180_000_000;
/// Latitude bound in microdegrees: 90 degrees.
pub const MAX_LAT_UDEG: i64 = 90_000_000;

/// A coordinate lies in the WGS84 range: longitude within +/-180 degrees,
/// latitude within +/-90 degrees.
pub open spec fn coord_in_range(c: GeographicCoordinates) -> bool {
    -MAX_LNG_UDEG <= c.lng <= MAX_LNG_UDEG && -MAX_LAT_UDEG <= c.lat <= MAX_LAT_UDEG
}

impl GeographicCoordinates {
    /// Builds a coordinate from microdegree components.
    pub fn new(lng: i64, lat: i64) -> (r: Self)
        ensures
            r.lng == lng,
            r.lat == lat,
    {
        GeographicCoordinates { lng, lat }
    }

    /// Clamps each component into the WGS84 range. Identity on coordinates
    /// already in range.
    pub fn clamped(self) -> (r: Self)
        ensures
            r == spec_clamped(self),
            coord_in_range(r),
            coord_in_range(self) ==> r == self,
    {
        let lng: i64 = if self.lng < -MAX_LNG_UDEG {
            -MAX_LNG_UDEG
        } else if self.lng > MAX_LNG_UDEG {
            MAX_LNG_UDEG
        } else {
            self.lng
        };
        let lat: i64 = if self.lat < -MAX_LAT_UDEG {
            -MAX_LAT_UDEG
        } else if self.lat > MAX_LAT_UDEG {
            MAX_LAT_UDEG
        } else {
            self.lat
        };
        GeographicCoordinates { lng, lat }
    }
}

/// The value `GeographicCoordinates::clamped` returns: each component moved
/// to the nearest end of its range if outside it.
pub open spec fn spec_clamped(c: GeographicCoordinates) -> GeographicCoordinates {
    GeographicCoordinates {
        lng: if c.lng < -MAX_LNG_UDEG {
            -MAX_LNG_UDEG as i64
        } else if c.lng > MAX_LNG_UDEG {
            MAX_LNG_UDEG as i64
        } else {
            c.lng
        },
        lat: if c.lat < -MAX_LAT_UDEG {
            -MAX_LAT_UDEG as i64
        } else if c.lat > MAX_LAT_UDEG {
            MAX_LAT_UDEG as i64
        } else {
            c.lat
        },
    }
}

/// The direction in which the user/device is observed to be traveling.
#[derive(Clone, Copy, PartialEq, Eq, Structural, Debug)]
pub struct CourseOverGround {
    /// The direction of travel, measured in clockwise degrees from true
    /// north (N = 0, E = 90, S = 180, W = 270); always below 360.
    pub degrees: u16,
    /// The accuracy of the course value, measured in degrees.
    pub accuracy: u16,
}

impl CourseOverGround {
    /// Builds a course value; the direction must be a valid compass reading.
    pub fn new(degrees: u16, accuracy: u16) -> (r: Self)
        requires
            degrees < 360,
        ensures
            r.degrees == degrees,
            r.accuracy == accuracy,
    {
        CourseOverGround { degrees, accuracy }
    }
}

/// The location of the user that is navigating.
///
/// A fix of poor quality (a very large `horizontal_accuracy`) is a valid
/// value: it weakens decisions derived from it, it is never rejected.
#[derive(Clone, Copy, PartialEq, Eq, Structural, Debug)]
pub struct UserLocation {
    pub coordinates: GeographicCoordinates,
    /// The estimated accuracy radius of the coordinates, in millimeters.
    pub horizontal_accuracy: u64,
    pub course_over_ground: Option<CourseOverGround>,
    /// When the fix was taken, in milliseconds since an arbitrary epoch.
    pub timestamp: u64,
}

/// An instruction that can be synthesized by a text-to-speech engine, due
/// when the traveler comes within the configured spoken trigger distance of
/// `trigger_at`.
#[derive(Clone, Debug)]
pub struct SpokenInstruction {
    /// Plain-text instruction which can be synthesized with a TTS engine.
    pub text: String,
    /// Speech Synthesis Markup Language, which should be preferred by
    /// clients capable of understanding it.
    pub ssml: Option<String>,
    pub trigger_at: GeographicCoordinates,
}

/// Indicates the type of maneuver to perform, as named by the external
/// protocol vocabulary. Frequently used in conjunction with
/// [`ManeuverModifier`].
#[derive(Clone, Copy, PartialEq, Eq, Structural, Debug)]
pub enum ManeuverType {
    Turn,
    Merge,
    Depart,
    Arrive,
    Fork,
    OffRamp,
    Roundabout,
}

/// Specifies additional information about a [`ManeuverType`], as named by
/// the external protocol vocabulary.
#[derive(Clone, Copy, PartialEq, Eq, Structural, Debug)]
pub enum ManeuverModifier {
    UTurn,
    SharpRight,
    Right,
    SlightRight,
    Straight,
    SlightLeft,
    Left,
    SharpLeft,
}

/// The structured description of one maneuver, ready for display.
#[derive(Clone, Debug)]
pub struct VisualInstructionContent {
    pub text: String,
    pub maneuver_type: Option<ManeuverType>,
    pub maneuver_modifier: Option<ManeuverModifier>,
    pub degrees: Option<i16>,
}

/// A banner of visual guidance, due when the traveler comes within the
/// configured visual trigger distance of `trigger_at`.
#[derive(Clone, Debug)]
pub struct VisualInstructions {
    pub primary_content: VisualInstructionContent,
    pub secondary_content: Option<VisualInstructionContent>,
    pub trigger_at: GeographicCoordinates,
}

/// A maneuver (such as a turn or merge) followed by travel of a certain
/// distance until reaching the next step.
#[derive(Clone, Debug)]
pub struct RouteStep {
    /// The starting location of the step (start of the maneuver); always a
    /// vertex of the owning route's geometry.
    pub start_location: GeographicCoordinates,
    /// The distance, in millimeters, to travel along the route after the
    /// maneuver to reach the next step.
    pub distance: u64,
    pub road_name: Option<String>,
    pub instruction: String,
    /// Spoken announcements tied to this step.
    pub spoken_instructions: Vec<SpokenInstruction>,
    /// Visual banners tied to this step.
    pub visual_instructions: Vec<VisualInstructions>,
}

/// Information describing the series of steps needed to travel between two
/// or more points.
#[derive(Clone, Debug)]
pub struct Route {
    pub geometry: Vec<GeographicCoordinates>,
    /// The ordered list of waypoints to visit, including the starting
    /// point. Distinct from the geometry, which includes all points
    /// visited.
    pub waypoints: Vec<GeographicCoordinates>,
    pub steps: Vec<RouteStep>,
}

/// A construction-time failure. There are no runtime errors: once a session
/// is built, every location update produces a state snapshot.
#[derive(Clone, Copy, PartialEq, Eq, Structural, Debug)]
pub enum NavigationError {
    /// The route's geometry has fewer than two points, its step list is
    /// empty, its steps do not partition its geometry, a coordinate is
    /// outside the WGS84 range, or the geometry is too long to measure.
    InvalidRoute,
    /// A configured ratio lies outside its range.
    InvalidConfig,
}

/// Whether two string slices hold the same characters.
pub fn str_eq(a: &str, b: &str) -> (r: bool)
    ensures
        r == (a@ == b@),
{
    let sa = a.to_owned();
    let sb = b.to_owned();
    sa.eq(&sb)
}

/// The maneuver type named by a word of the external protocol vocabulary,
/// or nothing for an unknown word.
pub open spec fn spec_maneuver_type_of(s: Seq<char>) -> Option<ManeuverType> {
    if s == "turn"@ {
        Some(ManeuverType::Turn)
    } else if s == "merge"@ {
        Some(ManeuverType::Merge)
    } else if s == "depart"@ {
        Some(ManeuverType::Depart)
    } else if s == "arrive"@ {
        Some(ManeuverType::Arrive)
    } else if s == "fork"@ {
        Some(ManeuverType::Fork)
    } else if s == "off ramp"@ {
        Some(ManeuverType::OffRamp)
    } else if s == "roundabout"@ {
        Some(ManeuverType::Roundabout)
    } else {
        None
    }
}

/// Decodes a maneuver type from the external protocol vocabulary; an
/// unknown word is a decode failure, reported at the boundary and never
/// inside the state machine.
pub fn maneuver_type_from_str(s: &str) -> (r: Option<ManeuverType>)
    ensures
        r == spec_maneuver_type_of(s@),
{
    if str_eq(s, "turn") {
        Some(ManeuverType::Turn)
    } else if str_eq(s, "merge") {
        Some(ManeuverType::Merge)
    } else if str_eq(s, "depart") {
        Some(ManeuverType::Depart)
    } else if str_eq(s, "arrive") {
        Some(ManeuverType::Arrive)
    } else if str_eq(s, "fork") {
        Some(ManeuverType::Fork)
    } else if str_eq(s, "off ramp") {
        Some(ManeuverType::OffRamp)
    } else if str_eq(s, "roundabout") {
        Some(ManeuverType::Roundabout)
    } else {
        None
    }
}

/// The maneuver modifier named by a word of the external protocol
/// vocabulary, or nothing for an unknown word.
pub open spec fn spec_maneuver_modifier_of(s: Seq<char>) -> Option<ManeuverModifier> {
    if s == "uturn"@ {
        Some(ManeuverModifier::UTurn)
    } else if s == "sharp right"@ {
        Some(ManeuverModifier::SharpRight)
    } else if s == "right"@ {
        Some(ManeuverModifier::Right)
    } else if s == "slight right"@ {
        Some(ManeuverModifier::SlightRight)
    } else if s == "straight"@ {
        Some(ManeuverModifier::Straight)
    } else if s == "slight left"@ {
        Some(ManeuverModifier::SlightLeft)
    } else if s == "left"@ {
        Some(ManeuverModifier::Left)
    } else if s == "sharp left"@ {
        Some(ManeuverModifier::SharpLeft)
    } else {
        None
    }
}

/// Decodes a maneuver modifier from the external protocol vocabulary; an
/// unknown word is a decode failure.
pub fn maneuver_modifier_from_str(s: &str) -> (r: Option<ManeuverModifier>)
    ensures
        r == spec_maneuver_modifier_of(s@),
{
    if str_eq(s, "uturn") {
        Some(ManeuverModifier::UTurn)
    } else if str_eq(s, "sharp right") {
        Some(ManeuverModifier::SharpRight)
    } else if str_eq(s, "right") {
        Some(ManeuverModifier::Right)
    } else if str_eq(s, "slight right") {
        Some(ManeuverModifier::SlightRight)
    } else if str_eq(s, "straight") {
        Some(ManeuverModifier::Straight)
    } else if str_eq(s, "slight left") {
        Some(ManeuverModifier::SlightLeft)
    } else if str_eq(s, "left") {
        Some(ManeuverModifier::Left)
    } else if str_eq(s, "sharp left") {
        Some(ManeuverModifier::SharpLeft)
    } else {
        None
    }
}

} // verus!
