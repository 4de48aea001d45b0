//! The navigation state machine.
//!
//! A session owns one validated route and one configuration. Each incoming
//! location fix is snapped to the active step (falling back to the whole
//! remaining route before declaring a deviation), the configured
//! step-advance policy decides whether the step is complete, and spoken and
//! visual instructions whose trigger point has come within range are
//! surfaced exactly once. The whole transition is specified by
//! [`spec_process`], a pure function of the previous session state and the
//! fix: every update is deterministic, and the laws at the end of this
//! module (idempotent duplicate fixes, a non-decreasing step index, distance
//! consistency) are proved from it.

use vstd::prelude::*;
use crate::models::{
    GeographicCoordinates, NavigationError, Route, RouteStep, SpokenInstruction, UserLocation,
    VisualInstructionContent, VisualInstructions, coord_in_range, spec_clamped,
};
use crate::geometry::{
    MAX_DISTANCE_MM, MAX_GEOMETRY_POINTS, coords_in_range, distance_mm, path_range_length_mm,
    project_onto_path_range, spec_distance_mm, spec_path_proj_cum, spec_path_proj_dist,
    spec_path_proj_point, spec_range_length_mm, spec_remaining_mm,
};
use crate::route_model::{
    compute_route_boundaries, lemma_route_boundaries_wf, route_boundaries_wf,
    spec_route_boundaries,
};

verus! {

/// When the active step is considered complete.
#[derive(Clone, Copy, PartialEq, Eq, Structural, Debug)]
pub enum StepAdvanceMode {
    /// Never advance automatically; only an explicit call of
    /// `advance_to_next_step` moves on. Deviation detection still runs.
    Manual,
    /// Advance when a fix at least as accurate as
    /// `minimum_horizontal_accuracy_mm` comes within `distance_mm` of the
    /// end of the step, measured along the step's geometry.
    DistanceToEndOfStep { distance_mm: u64, minimum_horizontal_accuracy_mm: u64 },
    /// Advance when a fix at least as accurate as
    /// `minimum_horizontal_accuracy_mm` has covered
    /// `automatic_advance_ratio_ppm` parts per million of the step's
    /// geometry; more robust than a fixed distance on short steps.
    RelativeLineStringDistance {
        minimum_horizontal_accuracy_mm: u64,
        automatic_advance_ratio_ppm: u32,
    },
}

/// Session configuration; immutable for the life of a session.
#[derive(Clone, Copy, PartialEq, Eq, Structural, Debug)]
pub struct NavigationControllerConfig {
    pub step_advance: StepAdvanceMode,
    /// A spoken instruction becomes due within this distance of its trigger
    /// point.
    pub spoken_instruction_trigger_distance_mm: u64,
    /// A visual instruction becomes due within this distance of its trigger
    /// point; typically larger than the spoken distance.
    pub visual_instruction_trigger_distance_mm: u64,
    /// A fix farther than this from the route is a deviation.
    pub deviation_threshold_mm: u64,
}

/// A valid configuration: an advance ratio is a proper fraction.
pub open spec fn config_wf(c: NavigationControllerConfig) -> bool {
    match c.step_advance {
        StepAdvanceMode::RelativeLineStringDistance { automatic_advance_ratio_ppm, .. } => {
            automatic_advance_ratio_ppm <= 1_000_000
        },
        _ => true,
    }
}

impl NavigationControllerConfig {
    /// Builds a configuration, rejecting an advance ratio above one.
    pub fn new(
        step_advance: StepAdvanceMode,
        spoken_instruction_trigger_distance_mm: u64,
        visual_instruction_trigger_distance_mm: u64,
        deviation_threshold_mm: u64,
    ) -> (r: Result<NavigationControllerConfig, NavigationError>)
        ensures
            (r is Ok) == config_wf(
                NavigationControllerConfig {
                    step_advance,
                    spoken_instruction_trigger_distance_mm,
                    visual_instruction_trigger_distance_mm,
                    deviation_threshold_mm,
                },
            ),
            r is Ok ==> r->Ok_0 == (NavigationControllerConfig {
                step_advance,
                spoken_instruction_trigger_distance_mm,
                visual_instruction_trigger_distance_mm,
                deviation_threshold_mm,
            }),
            r is Err ==> r->Err_0 == NavigationError::InvalidConfig,
    {
        let ok = match step_advance {
            StepAdvanceMode::RelativeLineStringDistance { automatic_advance_ratio_ppm, .. } => {
                automatic_advance_ratio_ppm <= 1_000_000
            },
            _ => true,
        };
        if ok {
            Ok(
                NavigationControllerConfig {
                    step_advance,
                    spoken_instruction_trigger_distance_mm,
                    visual_instruction_trigger_distance_mm,
                    deviation_threshold_mm,
                },
            )
        } else {
            Err(NavigationError::InvalidConfig)
        }
    }
}

/// Where a session stands in its life cycle.
#[derive(Clone, Copy, PartialEq, Eq, Structural, Debug)]
pub enum TripStatus {
    /// Constructed, no location processed yet.
    NotStarted,
    /// Processing location updates.
    Navigating,
    /// The last step was completed; terminal.
    Arrived,
    /// Explicitly cancelled; terminal.
    Stopped,
}

/// The per-update output of the state machine. A value, not a stored
/// entity: the caller decides whether to retain history.
pub struct NavigationStateUpdate {
    pub status: TripStatus,
    /// Index of the active step into the route's step list.
    pub active_step_index: usize,
    /// Distance left along the active step's geometry, in millimeters.
    pub remaining_step_distance_mm: u64,
    /// Distance left to the end of the route, in millimeters.
    pub remaining_total_distance_mm: u64,
    /// The traveler's location snapped to the route, or the raw (clamped)
    /// location when deviating.
    pub snapped_location: GeographicCoordinates,
    /// Whether the fix lies farther than the deviation threshold from the
    /// route.
    pub deviation: bool,
    /// Spoken instructions newly due this update.
    pub spoken_instructions: Vec<SpokenInstruction>,
    /// Visual instructions newly due this update.
    pub visual_instructions: Vec<VisualInstructions>,
}

/// The mutable part of a session, as mathematical values.
#[verifier::ext_equal]
pub ghost struct NavState {
    pub status: TripStatus,
    pub active: int,
    pub consumed_spoken: Seq<Seq<bool>>,
    pub consumed_visual: Seq<Seq<bool>>,
    pub last_snapped: Option<GeographicCoordinates>,
}

/// An update, as mathematical values.
#[verifier::ext_equal]
pub ghost struct NavUpdate {
    pub status: TripStatus,
    pub active: int,
    pub remaining_step: int,
    pub remaining_total: int,
    pub snapped: GeographicCoordinates,
    pub deviation: bool,
    pub spoken: Seq<SpokenInstruction>,
    pub visual: Seq<VisualInstructions>,
}

/// The navigation state machine: one session over one route.
pub struct NavigationController {
    /// The route being traveled; immutable for the session.
    pub route: Route,
    /// The session configuration; immutable for the session.
    pub config: NavigationControllerConfig,
    /// Step boundaries into the route's geometry, from validation.
    pub boundaries: Vec<usize>,
    pub status: TripStatus,
    pub active_step_index: usize,
    /// Per step, per spoken instruction: already surfaced.
    pub consumed_spoken: Vec<Vec<bool>>,
    /// Per step, per visual instruction: already surfaced.
    pub consumed_visual: Vec<Vec<bool>>,
    /// The snapped location of the last processed fix.
    pub last_snapped: Option<GeographicCoordinates>,
}

/// The mutable part of a controller as a [`NavState`].
pub open spec fn state_of(c: NavigationController) -> NavState {
    NavState {
        status: c.status,
        active: c.active_step_index as int,
        consumed_spoken: c.consumed_spoken@.map_values(|v: Vec<bool>| v@),
        consumed_visual: c.consumed_visual@.map_values(|v: Vec<bool>| v@),
        last_snapped: c.last_snapped,
    }
}

/// An update as a [`NavUpdate`].
pub open spec fn update_view(u: NavigationStateUpdate) -> NavUpdate {
    NavUpdate {
        status: u.status,
        active: u.active_step_index as int,
        remaining_step: u.remaining_step_distance_mm as int,
        remaining_total: u.remaining_total_distance_mm as int,
        snapped: u.snapped_location,
        deviation: u.deviation,
        spoken: u.spoken_instructions@,
        visual: u.visual_instructions@,
    }
}

/// The validated step boundaries of the controller's route.
pub open spec fn spec_bounds(c: NavigationController) -> Seq<int> {
    spec_route_boundaries(c.route.geometry@, c.route.steps@)->Some_0
}

/// Geometry index where step `i` begins.
pub open spec fn spec_step_start(c: NavigationController, i: int) -> int {
    spec_bounds(c)[i]
}

/// Geometry index where step `i` ends (the next step begins there).
pub open spec fn spec_step_end(c: NavigationController, i: int) -> int {
    spec_bounds(c)[i + 1]
}

/// Length of step `i`'s geometry, in millimeters.
pub open spec fn spec_step_length(c: NavigationController, i: int) -> int {
    spec_range_length_mm(c.route.geometry@, spec_step_start(c, i), spec_step_end(c, i))
}

/// Distance from `p` to its projection on step `i`'s geometry.
pub open spec fn spec_snap_dist(c: NavigationController, i: int, p: GeographicCoordinates) -> int {
    spec_path_proj_dist(c.route.geometry@, p, spec_step_start(c, i), spec_step_end(c, i))
}

/// The point step `i`'s geometry snaps `p` to.
pub open spec fn spec_snap_point(
    c: NavigationController,
    i: int,
    p: GeographicCoordinates,
) -> GeographicCoordinates {
    spec_path_proj_point(c.route.geometry@, p, spec_step_start(c, i), spec_step_end(c, i))
}

/// Distance along step `i`'s geometry from its start to the snapped point.
pub open spec fn spec_snap_cum(c: NavigationController, i: int, p: GeographicCoordinates) -> int {
    spec_path_proj_cum(c.route.geometry@, p, spec_step_start(c, i), spec_step_end(c, i))
}

/// Distance from `p` to its projection on the whole remaining route, from
/// the start of step `i`.
pub open spec fn spec_route_snap_dist(
    c: NavigationController,
    i: int,
    p: GeographicCoordinates,
) -> int {
    spec_path_proj_dist(
        c.route.geometry@,
        p,
        spec_step_start(c, i),
        c.route.geometry@.len() - 1,
    )
}

/// The point the whole remaining route snaps `p` to.
pub open spec fn spec_route_snap_point(
    c: NavigationController,
    i: int,
    p: GeographicCoordinates,
) -> GeographicCoordinates {
    spec_path_proj_point(
        c.route.geometry@,
        p,
        spec_step_start(c, i),
        c.route.geometry@.len() - 1,
    )
}

/// A fix deviates when it is farther than the threshold both from the
/// active step and from the whole remaining route.
pub open spec fn spec_deviates(c: NavigationController, i: int, p: GeographicCoordinates) -> bool {
    spec_snap_dist(c, i, p) > c.config.deviation_threshold_mm
        && spec_route_snap_dist(c, i, p) > c.config.deviation_threshold_mm
}

/// The location an update reports: the step projection when within the
/// threshold, else the remaining-route projection when within the
/// threshold, else the raw (clamped) location.
pub open spec fn spec_snapped_location(
    c: NavigationController,
    i: int,
    p: GeographicCoordinates,
) -> GeographicCoordinates {
    if spec_snap_dist(c, i, p) <= c.config.deviation_threshold_mm {
        spec_snap_point(c, i, p)
    } else if spec_route_snap_dist(c, i, p) <= c.config.deviation_threshold_mm {
        spec_route_snap_point(c, i, p)
    } else {
        p
    }
}

/// Whether the configured step-advance policy completes step `i` for a fix
/// at `p` with the given horizontal accuracy.
pub open spec fn spec_advances(
    c: NavigationController,
    i: int,
    p: GeographicCoordinates,
    acc: u64,
) -> bool {
    match c.config.step_advance {
        StepAdvanceMode::Manual => false,
        StepAdvanceMode::DistanceToEndOfStep { distance_mm, minimum_horizontal_accuracy_mm } => {
            acc <= minimum_horizontal_accuracy_mm && spec_step_length(c, i) <= spec_snap_cum(
                c,
                i,
                p,
            ) + distance_mm
        },
        StepAdvanceMode::RelativeLineStringDistance {
            minimum_horizontal_accuracy_mm,
            automatic_advance_ratio_ppm,
        } => {
            acc <= minimum_horizontal_accuracy_mm && spec_snap_cum(c, i, p) * 1_000_000
                >= automatic_advance_ratio_ppm * spec_step_length(c, i)
        },
    }
}

/// A consumed-flag row after an update: a flag is set once its instruction's
/// trigger point is within `radius` of the snapped location.
pub open spec fn spec_mark_row_spoken(
    instrs: Seq<SpokenInstruction>,
    row: Seq<bool>,
    snapped: GeographicCoordinates,
    radius: u64,
) -> Seq<bool> {
    Seq::new(
        row.len(),
        |k: int| row[k] || spec_distance_mm(snapped, instrs[k].trigger_at) <= radius,
    )
}

/// As [`spec_mark_row_spoken`], for visual instructions.
pub open spec fn spec_mark_row_visual(
    instrs: Seq<VisualInstructions>,
    row: Seq<bool>,
    snapped: GeographicCoordinates,
    radius: u64,
) -> Seq<bool> {
    Seq::new(
        row.len(),
        |k: int| row[k] || spec_distance_mm(snapped, instrs[k].trigger_at) <= radius,
    )
}

/// The spoken instructions among the first `k` of a step that newly become
/// due: not yet consumed and within `radius` of the snapped location, in
/// step order.
pub open spec fn spec_due_spoken_list(
    instrs: Seq<SpokenInstruction>,
    row: Seq<bool>,
    snapped: GeographicCoordinates,
    radius: u64,
    k: int,
) -> Seq<SpokenInstruction>
    decreases k,
{
    if k <= 0 {
        Seq::empty()
    } else {
        let pre = spec_due_spoken_list(instrs, row, snapped, radius, k - 1);
        if !row[k - 1] && spec_distance_mm(snapped, instrs[k - 1].trigger_at) <= radius {
            pre.push(instrs[k - 1])
        } else {
            pre
        }
    }
}

/// As [`spec_due_spoken_list`], for visual instructions.
pub open spec fn spec_due_visual_list(
    instrs: Seq<VisualInstructions>,
    row: Seq<bool>,
    snapped: GeographicCoordinates,
    radius: u64,
    k: int,
) -> Seq<VisualInstructions>
    decreases k,
{
    if k <= 0 {
        Seq::empty()
    } else {
        let pre = spec_due_visual_list(instrs, row, snapped, radius, k - 1);
        if !row[k - 1] && spec_distance_mm(snapped, instrs[k - 1].trigger_at) <= radius {
            pre.push(instrs[k - 1])
        } else {
            pre
        }
    }
}

/// All spoken instructions of step `j` that newly become due.
pub open spec fn spec_due_spoken_step(
    c: NavigationController,
    s: NavState,
    j: int,
    snapped: GeographicCoordinates,
) -> Seq<SpokenInstruction> {
    let instrs = c.route.steps@[j].spoken_instructions@;
    spec_due_spoken_list(
        instrs,
        s.consumed_spoken[j],
        snapped,
        c.config.spoken_instruction_trigger_distance_mm,
        instrs.len() as int,
    )
}

/// All visual instructions of step `j` that newly become due.
pub open spec fn spec_due_visual_step(
    c: NavigationController,
    s: NavState,
    j: int,
    snapped: GeographicCoordinates,
) -> Seq<VisualInstructions> {
    let instrs = c.route.steps@[j].visual_instructions@;
    spec_due_visual_list(
        instrs,
        s.consumed_visual[j],
        snapped,
        c.config.visual_instruction_trigger_distance_mm,
        instrs.len() as int,
    )
}

/// The spoken instructions an update surfaces: those of the active step,
/// then those of the next step if one exists.
pub open spec fn spec_due_spoken_all(
    c: NavigationController,
    s: NavState,
    i2: int,
    snapped: GeographicCoordinates,
) -> Seq<SpokenInstruction> {
    if i2 + 1 < c.route.steps@.len() {
        spec_due_spoken_step(c, s, i2, snapped) + spec_due_spoken_step(c, s, i2 + 1, snapped)
    } else {
        spec_due_spoken_step(c, s, i2, snapped)
    }
}

/// The visual instructions an update surfaces.
pub open spec fn spec_due_visual_all(
    c: NavigationController,
    s: NavState,
    i2: int,
    snapped: GeographicCoordinates,
) -> Seq<VisualInstructions> {
    if i2 + 1 < c.route.steps@.len() {
        spec_due_visual_step(c, s, i2, snapped) + spec_due_visual_step(c, s, i2 + 1, snapped)
    } else {
        spec_due_visual_step(c, s, i2, snapped)
    }
}

/// The consumed flags after an update that left the session navigating step
/// `i2`: the rows of the active and next step are marked, the rest are
/// untouched.
pub open spec fn spec_mark_consumed_spoken(
    c: NavigationController,
    s: NavState,
    i2: int,
    snapped: GeographicCoordinates,
) -> Seq<Seq<bool>> {
    Seq::new(
        s.consumed_spoken.len(),
        |j: int|
            if j == i2 || (j == i2 + 1 && i2 + 1 < c.route.steps@.len()) {
                spec_mark_row_spoken(
                    c.route.steps@[j].spoken_instructions@,
                    s.consumed_spoken[j],
                    snapped,
                    c.config.spoken_instruction_trigger_distance_mm,
                )
            } else {
                s.consumed_spoken[j]
            },
    )
}

/// As [`spec_mark_consumed_spoken`], for visual instructions.
pub open spec fn spec_mark_consumed_visual(
    c: NavigationController,
    s: NavState,
    i2: int,
    snapped: GeographicCoordinates,
) -> Seq<Seq<bool>> {
    Seq::new(
        s.consumed_visual.len(),
        |j: int|
            if j == i2 || (j == i2 + 1 && i2 + 1 < c.route.steps@.len()) {
                spec_mark_row_visual(
                    c.route.steps@[j].visual_instructions@,
                    s.consumed_visual[j],
                    snapped,
                    c.config.visual_instruction_trigger_distance_mm,
                )
            } else {
                s.consumed_visual[j]
            },
    )
}

/// The snapshot a terminal session answers every update with.
pub open spec fn spec_terminal_update(c: NavigationController, s: NavState) -> NavUpdate {
    NavUpdate {
        status: s.status,
        active: s.active,
        remaining_step: 0,
        remaining_total: 0,
        snapped: match s.last_snapped {
            Some(p) => p,
            None => c.route.geometry@[0],
        },
        deviation: false,
        spoken: Seq::empty(),
        visual: Seq::empty(),
    }
}

/// How a session processes one location fix: the full transition function.
/// `c` supplies the immutable route, boundaries and configuration; `s` is
/// the mutable session state before the fix.
pub open spec fn spec_process(
    c: NavigationController,
    s: NavState,
    location: UserLocation,
) -> (NavState, NavUpdate) {
    if s.status == TripStatus::Arrived || s.status == TripStatus::Stopped {
        (s, spec_terminal_update(c, s))
    } else {
        let p = spec_clamped(location.coordinates);
        let acc = location.horizontal_accuracy;
        let i = s.active;
        let n = c.route.steps@.len() as int;
        let adv = spec_advances(c, i, p, acc);
        let dev = spec_deviates(c, i, p);
        let snapped = spec_snapped_location(c, i, p);
        if adv && i == n - 1 {
            let s2 = NavState { status: TripStatus::Arrived, last_snapped: Some(snapped), ..s };
            let u = NavUpdate {
                status: TripStatus::Arrived,
                active: i,
                remaining_step: 0,
                remaining_total: 0,
                snapped,
                deviation: dev,
                spoken: Seq::empty(),
                visual: Seq::empty(),
            };
            (s2, u)
        } else {
            let i2 = if adv {
                i + 1
            } else {
                i
            };
            let rem_step = spec_remaining_mm(spec_step_length(c, i2), spec_snap_cum(c, i2, p));
            let rem_total = rem_step + spec_range_length_mm(
                c.route.geometry@,
                spec_step_end(c, i2),
                c.route.geometry@.len() - 1,
            );
            let s2 = NavState {
                status: TripStatus::Navigating,
                active: i2,
                consumed_spoken: spec_mark_consumed_spoken(c, s, i2, snapped),
                consumed_visual: spec_mark_consumed_visual(c, s, i2, snapped),
                last_snapped: Some(snapped),
            };
            let u = NavUpdate {
                status: TripStatus::Navigating,
                active: i2,
                remaining_step: rem_step,
                remaining_total: rem_total,
                snapped,
                deviation: dev,
                spoken: spec_due_spoken_all(c, s, i2, snapped),
                visual: spec_due_visual_all(c, s, i2, snapped),
            };
            (s2, u)
        }
    }
}

/// How a session processes an explicit advance: one step forward, or
/// arrival from the last step; nothing in a terminal state. No fix comes
/// with it, so remaining distances are measured from the last snapped
/// location (or the new step's start if none), no instruction triggers and
/// no deviation is reported.
pub open spec fn spec_advance_op(c: NavigationController, s: NavState) -> (NavState, NavUpdate) {
    if s.status == TripStatus::Arrived || s.status == TripStatus::Stopped {
        (s, spec_terminal_update(c, s))
    } else {
        let i = s.active;
        let n = c.route.steps@.len() as int;
        if i == n - 1 {
            let s2 = NavState { status: TripStatus::Arrived, ..s };
            let u = NavUpdate {
                status: TripStatus::Arrived,
                active: i,
                remaining_step: 0,
                remaining_total: 0,
                snapped: match s.last_snapped {
                    Some(p) => p,
                    None => c.route.geometry@[0],
                },
                deviation: false,
                spoken: Seq::empty(),
                visual: Seq::empty(),
            };
            (s2, u)
        } else {
            let i2 = i + 1;
            let cum = match s.last_snapped {
                Some(p) => spec_snap_cum(c, i2, p),
                None => 0,
            };
            let rem_step = spec_remaining_mm(spec_step_length(c, i2), cum);
            let rem_total = rem_step + spec_range_length_mm(
                c.route.geometry@,
                spec_step_end(c, i2),
                c.route.geometry@.len() - 1,
            );
            let snapped = match s.last_snapped {
                Some(p) => p,
                None => c.route.geometry@[spec_step_start(c, i2)],
            };
            let s2 = NavState { status: TripStatus::Navigating, active: i2, ..s };
            let u = NavUpdate {
                status: TripStatus::Navigating,
                active: i2,
                remaining_step: rem_step,
                remaining_total: rem_total,
                snapped,
                deviation: false,
                spoken: Seq::empty(),
                visual: Seq::empty(),
            };
            (s2, u)
        }
    }
}

/// Every trigger point of every instruction of the route is in the WGS84
/// range.
pub open spec fn instrs_in_range(steps: Seq<RouteStep>) -> bool {
    forall|j: int|
        0 <= j < steps.len() ==> {
            &&& (forall|k: int|
                0 <= k < (#[trigger] steps[j]).spoken_instructions@.len() ==> coord_in_range(
                    #[trigger] steps[j].spoken_instructions@[k].trigger_at,
                ))
            &&& (forall|k: int|
                0 <= k < steps[j].visual_instructions@.len() ==> coord_in_range(
                    #[trigger] steps[j].visual_instructions@[k].trigger_at,
                ))
        }
}

impl NavigationController {
    /// A well-formed session: validated route and boundaries, a valid
    /// configuration, the active step in range, one consumed-flag row per
    /// step matching its instruction list, the last snapped location in
    /// range, and a not-yet-started session still on step zero.
    pub open spec fn wf(self) -> bool {
        &&& spec_route_boundaries(self.route.geometry@, self.route.steps@) is Some
        &&& self.boundaries@.map_values(|v: usize| v as int) == spec_bounds(self)
        &&& config_wf(self.config)
        &&& instrs_in_range(self.route.steps@)
        &&& self.active_step_index < self.route.steps@.len()
        &&& self.consumed_spoken@.len() == self.route.steps@.len()
        &&& self.consumed_visual@.len() == self.route.steps@.len()
        &&& (forall|j: int|
            0 <= j < self.route.steps@.len() ==> (#[trigger] self.consumed_spoken@[j])@.len()
                == self.route.steps@[j].spoken_instructions@.len())
        &&& (forall|j: int|
            0 <= j < self.route.steps@.len() ==> (#[trigger] self.consumed_visual@[j])@.len()
                == self.route.steps@[j].visual_instructions@.len())
        &&& match self.last_snapped {
            Some(p) => coord_in_range(p),
            None => true,
        }
        &&& (self.status == TripStatus::NotStarted ==> self.active_step_index == 0)
    }
}

/// Facts the validated boundaries give: they bracket every step, increase
/// strictly, and stay within the geometry.
pub proof fn lemma_bounds_facts(c: NavigationController)
    requires
        c.wf(),
    ensures
        spec_bounds(c).len() == c.route.steps@.len() + 1,
        c.boundaries@.len() == c.route.steps@.len() + 1,
        route_boundaries_wf(c.route.geometry@, c.route.steps@, spec_bounds(c)),
        forall|i: int|
            0 <= i < spec_bounds(c).len() ==> #[trigger] spec_bounds(c)[i] == c.boundaries@[i]
                as int,
        2 <= c.route.geometry@.len() <= MAX_GEOMETRY_POINTS,
        coords_in_range(c.route.geometry@),
        spec_bounds(c)[0] == 0,
        spec_bounds(c)[c.route.steps@.len() as int] == c.route.geometry@.len() - 1,
{
    lemma_route_boundaries_wf(c.route.geometry@, c.route.steps@);
    let m = c.boundaries@.map_values(|v: usize| v as int);
    assert(m.len() == c.boundaries@.len());
    assert(forall|i: int| 0 <= i < m.len() ==> #[trigger] m[i] == c.boundaries@[i] as int);
}

/// The boundaries are non-decreasing across any span of steps.
pub proof fn lemma_bounds_increasing(c: NavigationController, j: int, k: int)
    requires
        c.wf(),
        0 <= j <= k <= c.route.steps@.len(),
    ensures
        spec_bounds(c)[j] <= spec_bounds(c)[k],
    decreases k - j,
{
    lemma_bounds_facts(c);
    if j < k {
        lemma_bounds_increasing(c, j + 1, k);
        assert(spec_bounds(c)[j] < spec_bounds(c)[j + 1]);
    }
}

/// A row of `len` unset consumed flags.
fn false_row(len: usize) -> (v: Vec<bool>)
    ensures
        v@.len() == len,
        forall|k: int| 0 <= k < len ==> v@[k] == false,
{
    let mut v: Vec<bool> = Vec::new();
    let mut i: usize = 0;
    while i < len
        invariant
            i <= len,
            v@.len() == i,
            forall|k: int| 0 <= k < i ==> v@[k] == false,
        decreases len - i,
    {
        v.push(false);
        i = i + 1;
    }
    v
}

/// An owned copy of a spoken instruction, equal to the original.
fn clone_spoken(si: &SpokenInstruction) -> (r: SpokenInstruction)
    ensures
        r == *si,
{
    SpokenInstruction {
        text: si.text.clone(),
        ssml: match &si.ssml {
            Some(s) => Some(s.clone()),
            None => None,
        },
        trigger_at: si.trigger_at,
    }
}

/// An owned copy of a visual instruction's content, equal to the original.
fn clone_visual_content(vc: &VisualInstructionContent) -> (r: VisualInstructionContent)
    ensures
        r == *vc,
{
    VisualInstructionContent {
        text: vc.text.clone(),
        maneuver_type: vc.maneuver_type,
        maneuver_modifier: vc.maneuver_modifier,
        degrees: vc.degrees,
    }
}

/// An owned copy of a visual instruction, equal to the original.
fn clone_visual(vi: &VisualInstructions) -> (r: VisualInstructions)
    ensures
        r == *vi,
{
    VisualInstructions {
        primary_content: clone_visual_content(&vi.primary_content),
        secondary_content: match &vi.secondary_content {
            Some(c) => Some(clone_visual_content(c)),
            None => None,
        },
        trigger_at: vi.trigger_at,
    }
}

/// Marks and collects the spoken instructions of one step that newly become
/// due at `snapped`.
fn trigger_row_spoken(
    instrs: &Vec<SpokenInstruction>,
    row: &Vec<bool>,
    snapped: GeographicCoordinates,
    radius: u64,
    out: &mut Vec<SpokenInstruction>,
) -> (new_row: Vec<bool>)
    requires
        coord_in_range(snapped),
        forall|k: int| 0 <= k < instrs@.len() ==> coord_in_range(#[trigger] instrs@[k].trigger_at),
        row@.len() == instrs@.len(),
    ensures
        new_row@ == spec_mark_row_spoken(instrs@, row@, snapped, radius),
        final(out)@ == old(out)@ + spec_due_spoken_list(
            instrs@,
            row@,
            snapped,
            radius,
            instrs@.len() as int,
        ),
{
    let mut new_row: Vec<bool> = Vec::new();
    let mut k: usize = 0;
    proof {
        assert(out@ =~= old(out)@ + spec_due_spoken_list(instrs@, row@, snapped, radius, 0));
    }
    while k < instrs.len()
        invariant
            k <= instrs@.len(),
            row@.len() == instrs@.len(),
            coord_in_range(snapped),
            forall|j: int|
                0 <= j < instrs@.len() ==> coord_in_range(#[trigger] instrs@[j].trigger_at),
            new_row@.len() == k,
            forall|j: int|
                0 <= j < k ==> new_row@[j] == (row@[j] || spec_distance_mm(
                    snapped,
                    instrs@[j].trigger_at,
                ) <= radius),
            out@ == old(out)@ + spec_due_spoken_list(instrs@, row@, snapped, radius, k as int),
        decreases instrs@.len() - k,
    {
        let d = distance_mm(snapped, instrs[k].trigger_at);
        if d <= radius {
            if !row[k] {
                let copy = clone_spoken(&instrs[k]);
                out.push(copy);
            }
            new_row.push(true);
        } else {
            new_row.push(row[k]);
        }
        k = k + 1;
    }
    proof {
        assert(new_row@ =~= spec_mark_row_spoken(instrs@, row@, snapped, radius));
    }
    new_row
}

/// Marks and collects the visual instructions of one step that newly become
/// due at `snapped`.
fn trigger_row_visual(
    instrs: &Vec<VisualInstructions>,
    row: &Vec<bool>,
    snapped: GeographicCoordinates,
    radius: u64,
    out: &mut Vec<VisualInstructions>,
) -> (new_row: Vec<bool>)
    requires
        coord_in_range(snapped),
        forall|k: int| 0 <= k < instrs@.len() ==> coord_in_range(#[trigger] instrs@[k].trigger_at),
        row@.len() == instrs@.len(),
    ensures
        new_row@ == spec_mark_row_visual(instrs@, row@, snapped, radius),
        final(out)@ == old(out)@ + spec_due_visual_list(
            instrs@,
            row@,
            snapped,
            radius,
            instrs@.len() as int,
        ),
{
    let mut new_row: Vec<bool> = Vec::new();
    let mut k: usize = 0;
    proof {
        assert(out@ =~= old(out)@ + spec_due_visual_list(instrs@, row@, snapped, radius, 0));
    }
    while k < instrs.len()
        invariant
            k <= instrs@.len(),
            row@.len() == instrs@.len(),
            coord_in_range(snapped),
            forall|j: int|
                0 <= j < instrs@.len() ==> coord_in_range(#[trigger] instrs@[j].trigger_at),
            new_row@.len() == k,
            forall|j: int|
                0 <= j < k ==> new_row@[j] == (row@[j] || spec_distance_mm(
                    snapped,
                    instrs@[j].trigger_at,
                ) <= radius),
            out@ == old(out)@ + spec_due_visual_list(instrs@, row@, snapped, radius, k as int),
        decreases instrs@.len() - k,
    {
        let d = distance_mm(snapped, instrs[k].trigger_at);
        if d <= radius {
            if !row[k] {
                let copy = clone_visual(&instrs[k]);
                out.push(copy);
            }
            new_row.push(true);
        } else {
            new_row.push(row[k]);
        }
        k = k + 1;
    }
    proof {
        assert(new_row@ =~= spec_mark_row_visual(instrs@, row@, snapped, radius));
    }
    new_row
}

/// Whether a coordinate is in the WGS84 range.
fn coord_ok(c: GeographicCoordinates) -> (r: bool)
    ensures
        r == coord_in_range(c),
{
    c.lng >= -180_000_000 && c.lng <= 180_000_000 && c.lat >= -90_000_000 && c.lat <= 90_000_000
}

/// Whether every spoken trigger point of the list is in range.
fn all_spoken_in_range(v: &Vec<SpokenInstruction>) -> (r: bool)
    ensures
        r == (forall|k: int|
            0 <= k < v@.len() ==> coord_in_range(#[trigger] v@[k].trigger_at)),
{
    let mut k: usize = 0;
    while k < v.len()
        invariant
            k <= v@.len(),
            forall|j: int| 0 <= j < k ==> coord_in_range(#[trigger] v@[j].trigger_at),
        decreases v@.len() - k,
    {
        if !coord_ok(v[k].trigger_at) {
            return false;
        }
        k = k + 1;
    }
    true
}

/// Whether every visual trigger point of the list is in range.
fn all_visual_in_range(v: &Vec<VisualInstructions>) -> (r: bool)
    ensures
        r == (forall|k: int|
            0 <= k < v@.len() ==> coord_in_range(#[trigger] v@[k].trigger_at)),
{
    let mut k: usize = 0;
    while k < v.len()
        invariant
            k <= v@.len(),
            forall|j: int| 0 <= j < k ==> coord_in_range(#[trigger] v@[j].trigger_at),
        decreases v@.len() - k,
    {
        if !coord_ok(v[k].trigger_at) {
            return false;
        }
        k = k + 1;
    }
    true
}

impl NavigationController {
    /// Builds a session from a route and a configuration. Fails with
    /// [`NavigationError::InvalidConfig`] on an invalid configuration, and
    /// with [`NavigationError::InvalidRoute`] exactly when the route is
    /// invalid: fewer than two geometry points, no steps, steps that do not
    /// partition the geometry, or a coordinate out of range.
    pub fn new(route: Route, config: NavigationControllerConfig) -> (r: Result<
        NavigationController,
        NavigationError,
    >)
        ensures
            (r is Ok) == (config_wf(config) && spec_route_boundaries(
                route.geometry@,
                route.steps@,
            ) is Some && instrs_in_range(route.steps@)),
            r is Ok ==> ({
                let c = r->Ok_0;
                &&& c.wf()
                &&& c.route == route
                &&& c.config == config
                &&& c.status == TripStatus::NotStarted
                &&& c.active_step_index == 0
                &&& c.last_snapped is None
                &&& (forall|j: int, k: int|
                    0 <= j < c.consumed_spoken@.len() && 0 <= k < c.consumed_spoken@[j]@.len()
                        ==> #[trigger] c.consumed_spoken@[j]@[k] == false)
                &&& (forall|j: int, k: int|
                    0 <= j < c.consumed_visual@.len() && 0 <= k < c.consumed_visual@[j]@.len()
                        ==> #[trigger] c.consumed_visual@[j]@[k] == false)
            }),
            r is Err ==> r->Err_0 == (if !config_wf(config) {
                NavigationError::InvalidConfig
            } else {
                NavigationError::InvalidRoute
            }),
    {
        let config_ok = match config.step_advance {
            StepAdvanceMode::RelativeLineStringDistance { automatic_advance_ratio_ppm, .. } => {
                automatic_advance_ratio_ppm <= 1_000_000
            },
            _ => true,
        };
        if !config_ok {
            return Err(NavigationError::InvalidConfig);
        }
        let boundaries = match compute_route_boundaries(&route) {
            Ok(b) => b,
            Err(e) => {
                return Err(e);
            },
        };
        if !all_instrs_in_range(&route.steps) {
            return Err(NavigationError::InvalidRoute);
        }
        let mut consumed_spoken: Vec<Vec<bool>> = Vec::new();
        let mut consumed_visual: Vec<Vec<bool>> = Vec::new();
        let mut j: usize = 0;
        let n = route.steps.len();
        while j < n
            invariant
                j <= n,
                n == route.steps@.len(),
                consumed_spoken@.len() == j,
                consumed_visual@.len() == j,
                forall|t: int|
                    0 <= t < j ==> (#[trigger] consumed_spoken@[t])@.len()
                        == route.steps@[t].spoken_instructions@.len(),
                forall|t: int|
                    0 <= t < j ==> (#[trigger] consumed_visual@[t])@.len()
                        == route.steps@[t].visual_instructions@.len(),
                forall|t: int, k: int|
                    0 <= t < j && 0 <= k < consumed_spoken@[t]@.len()
                        ==> #[trigger] consumed_spoken@[t]@[k] == false,
                forall|t: int, k: int|
                    0 <= t < j && 0 <= k < consumed_visual@[t]@.len()
                        ==> #[trigger] consumed_visual@[t]@[k] == false,
            decreases n - j,
        {
            let srow = false_row(route.steps[j].spoken_instructions.len());
            let vrow = false_row(route.steps[j].visual_instructions.len());
            consumed_spoken.push(srow);
            consumed_visual.push(vrow);
            j = j + 1;
        }
        Ok(
            NavigationController {
                route,
                config,
                boundaries,
                status: TripStatus::NotStarted,
                active_step_index: 0,
                consumed_spoken,
                consumed_visual,
                last_snapped: None,
            },
        )
    }

    /// Processes one location fix and returns the resulting snapshot. The
    /// whole transition equals [`spec_process`] applied to the previous
    /// state and the fix: snapping, the deviation flag, the step-advance
    /// decision, due instructions, and the remaining distances are all
    /// pinned by it. The active step index never decreases and advances by
    /// at most one step per update; a terminal session answers with its
    /// unchanged terminal snapshot.
    #[verifier::rlimit(100)]
    #[verifier::spinoff_prover]
    pub fn update_user_location(&mut self, location: UserLocation) -> (upd: NavigationStateUpdate)
        requires
            old(self).wf(),
        ensures
            final(self).wf(),
            final(self).route == old(self).route,
            final(self).config == old(self).config,
            final(self).boundaries == old(self).boundaries,
            state_of(*final(self)) == spec_process(*old(self), state_of(*old(self)), location).0,
            update_view(upd) == spec_process(*old(self), state_of(*old(self)), location).1,
            old(self).active_step_index <= final(self).active_step_index <= old(
                self,
            ).active_step_index + 1,
    {
        proof {
            lemma_bounds_facts(*self);
        }
        let ghost c = *old(self);
        let ghost s0 = state_of(*old(self));
        if matches!(self.status, TripStatus::Arrived) || matches!(self.status, TripStatus::Stopped) {
            let snapped = match self.last_snapped {
                Some(q) => q,
                None => self.route.geometry[0],
            };
            let upd = NavigationStateUpdate {
                status: self.status,
                active_step_index: self.active_step_index,
                remaining_step_distance_mm: 0,
                remaining_total_distance_mm: 0,
                snapped_location: snapped,
                deviation: false,
                spoken_instructions: Vec::new(),
                visual_instructions: Vec::new(),
            };
            proof {
                assert(update_view(upd).spoken =~= Seq::<SpokenInstruction>::empty());
                assert(update_view(upd).visual =~= Seq::<VisualInstructions>::empty());
                assert(update_view(upd) =~= spec_process(c, s0, location).1);
            }
            return upd;
        }
        let p = location.coordinates.clamped();
        let acc = location.horizontal_accuracy;
        let i = self.active_step_index;
        let n = self.route.steps.len();
        let glen = self.route.geometry.len();
        let bstart = self.boundaries[i];
        let bend = self.boundaries[i + 1];
        proof {
            lemma_bounds_increasing(c, i + 1, n as int);
            assert(bstart as int == spec_bounds(c)[i as int]);
            assert(bend as int == spec_bounds(c)[i + 1]);
        }
        let step_proj = project_onto_path_range(p, &self.route.geometry, bstart, bend);
        let thr = self.config.deviation_threshold_mm;
        let deviation: bool;
        let snapped: GeographicCoordinates;
        if step_proj.distance_mm <= thr {
            deviation = false;
            snapped = step_proj.point;
        } else {
            let route_proj = project_onto_path_range(p, &self.route.geometry, bstart, glen - 1);
            if route_proj.distance_mm <= thr {
                deviation = false;
                snapped = route_proj.point;
            } else {
                deviation = true;
                snapped = p;
            }
        }
        proof {
            assert(deviation == spec_deviates(c, i as int, p));
            assert(snapped == spec_snapped_location(c, i as int, p));
        }
        let len_i = path_range_length_mm(&self.route.geometry, bstart, bend);
        let adv = match self.config.step_advance {
            StepAdvanceMode::Manual => false,
            StepAdvanceMode::DistanceToEndOfStep {
                distance_mm: dthr,
                minimum_horizontal_accuracy_mm: macc,
            } => {
                acc <= macc && (len_i as u128) <= (step_proj.cumulative_mm as u128) + (
                dthr as u128)
            },
            StepAdvanceMode::RelativeLineStringDistance {
                minimum_horizontal_accuracy_mm: macc,
                automatic_advance_ratio_ppm: ratio,
            } => {
                proof {
                    assert((ratio as int) * (len_i as int) <= (4_294_967_295 as int) * (
                    18_446_744_073_709_551_615 as int)) by (nonlinear_arith)
                        requires
                            0 <= ratio as int <= 4_294_967_295,
                            0 <= len_i as int <= 18_446_744_073_709_551_615,
                    ;
                }
                acc <= macc && (step_proj.cumulative_mm as u128) * 1_000_000 >= (ratio as u128)
                    * (len_i as u128)
            },
        };
        proof {
            assert(adv == spec_advances(c, i as int, p, acc));
        }
        if adv && i == n - 1 {
            self.status = TripStatus::Arrived;
            self.last_snapped = Some(snapped);
            let upd = NavigationStateUpdate {
                status: TripStatus::Arrived,
                active_step_index: i,
                remaining_step_distance_mm: 0,
                remaining_total_distance_mm: 0,
                snapped_location: snapped,
                deviation,
                spoken_instructions: Vec::new(),
                visual_instructions: Vec::new(),
            };
            proof {
                assert(state_of(*self) =~= spec_process(c, s0, location).0);
                assert(update_view(upd).spoken =~= Seq::<SpokenInstruction>::empty());
                assert(update_view(upd).visual =~= Seq::<VisualInstructions>::empty());
                assert(update_view(upd) =~= spec_process(c, s0, location).1);
            }
            return upd;
        }
        let i2 = if adv {
            i + 1
        } else {
            i
        };
        self.status = TripStatus::Navigating;
        self.active_step_index = i2;
        let b2s = self.boundaries[i2];
        let b2e = self.boundaries[i2 + 1];
        proof {
            lemma_bounds_increasing(c, i2 + 1, n as int);
            assert(b2s as int == spec_bounds(c)[i2 as int]);
            assert(b2e as int == spec_bounds(c)[i2 + 1]);
        }
        let cum2: u64;
        let len2: u64;
        if adv {
            let proj2 = project_onto_path_range(p, &self.route.geometry, b2s, b2e);
            cum2 = proj2.cumulative_mm;
            len2 = path_range_length_mm(&self.route.geometry, b2s, b2e);
        } else {
            cum2 = step_proj.cumulative_mm;
            len2 = len_i;
        }
        let rem_step: u64 = if cum2 >= len2 {
            0
        } else {
            len2 - cum2
        };
        let suffix = path_range_length_mm(&self.route.geometry, b2e, glen - 1);
        proof {
            crate::geometry::lemma_range_length_additive(
                c.route.geometry@,
                b2s as int,
                b2e as int,
                glen - 1,
            );
            crate::geometry::lemma_range_length_bounds(c.route.geometry@, b2s as int, glen - 1);
            assert((glen - 1 - b2s) * MAX_DISTANCE_MM <= 200_000_000 * MAX_DISTANCE_MM)
                by (nonlinear_arith)
                requires
                    0 <= (glen - 1 - b2s) <= 200_000_000,
            ;
        }
        let rem_total = rem_step + suffix;
        let mut spoken_out: Vec<SpokenInstruction> = Vec::new();
        let mut visual_out: Vec<VisualInstructions> = Vec::new();
        let s_radius = self.config.spoken_instruction_trigger_distance_mm;
        let v_radius = self.config.visual_instruction_trigger_distance_mm;
        let row_s = trigger_row_spoken(
            &self.route.steps[i2].spoken_instructions,
            &self.consumed_spoken[i2],
            snapped,
            s_radius,
            &mut spoken_out,
        );
        self.consumed_spoken.set(i2, row_s);
        let row_v = trigger_row_visual(
            &self.route.steps[i2].visual_instructions,
            &self.consumed_visual[i2],
            snapped,
            v_radius,
            &mut visual_out,
        );
        self.consumed_visual.set(i2, row_v);
        if i2 + 1 < n {
            let row_s2 = trigger_row_spoken(
                &self.route.steps[i2 + 1].spoken_instructions,
                &self.consumed_spoken[i2 + 1],
                snapped,
                s_radius,
                &mut spoken_out,
            );
            self.consumed_spoken.set(i2 + 1, row_s2);
            let row_v2 = trigger_row_visual(
                &self.route.steps[i2 + 1].visual_instructions,
                &self.consumed_visual[i2 + 1],
                snapped,
                v_radius,
                &mut visual_out,
            );
            self.consumed_visual.set(i2 + 1, row_v2);
        }
        self.last_snapped = Some(snapped);
        let upd = NavigationStateUpdate {
            status: TripStatus::Navigating,
            active_step_index: i2,
            remaining_step_distance_mm: rem_step,
            remaining_total_distance_mm: rem_total,
            snapped_location: snapped,
            deviation,
            spoken_instructions: spoken_out,
            visual_instructions: visual_out,
        };
        proof {
            let sp = spec_process(c, s0, location);
            assert(spoken_out@ =~= spec_due_spoken_all(c, s0, i2 as int, snapped));
            assert(visual_out@ =~= spec_due_visual_all(c, s0, i2 as int, snapped));
            assert(state_of(*self).consumed_spoken =~= spec_mark_consumed_spoken(
                c,
                s0,
                i2 as int,
                snapped,
            ));
            assert(state_of(*self).consumed_visual =~= spec_mark_consumed_visual(
                c,
                s0,
                i2 as int,
                snapped,
            ));
            assert(state_of(*self) =~= sp.0);
            assert(update_view(upd) =~= sp.1);
        }
        upd
    }

    /// Moves the active step forward by exactly one if not already on the
    /// last step, otherwise transitions to arrival; has no effect, not an
    /// error, in a terminal state. The transition equals
    /// [`spec_advance_op`] applied to the previous state.
    pub fn advance_to_next_step(&mut self) -> (upd: NavigationStateUpdate)
        requires
            old(self).wf(),
        ensures
            final(self).wf(),
            final(self).route == old(self).route,
            final(self).config == old(self).config,
            final(self).boundaries == old(self).boundaries,
            state_of(*final(self)) == spec_advance_op(*old(self), state_of(*old(self))).0,
            update_view(upd) == spec_advance_op(*old(self), state_of(*old(self))).1,
            old(self).active_step_index <= final(self).active_step_index <= old(
                self,
            ).active_step_index + 1,
    {
        proof {
            lemma_bounds_facts(*self);
        }
        let ghost c = *old(self);
        let ghost s0 = state_of(*old(self));
        if matches!(self.status, TripStatus::Arrived) || matches!(self.status, TripStatus::Stopped) {
            let snapped = match self.last_snapped {
                Some(q) => q,
                None => self.route.geometry[0],
            };
            let upd = NavigationStateUpdate {
                status: self.status,
                active_step_index: self.active_step_index,
                remaining_step_distance_mm: 0,
                remaining_total_distance_mm: 0,
                snapped_location: snapped,
                deviation: false,
                spoken_instructions: Vec::new(),
                visual_instructions: Vec::new(),
            };
            proof {
                assert(update_view(upd).spoken =~= Seq::<SpokenInstruction>::empty());
                assert(update_view(upd).visual =~= Seq::<VisualInstructions>::empty());
                assert(update_view(upd) =~= spec_advance_op(c, s0).1);
            }
            return upd;
        }
        let i = self.active_step_index;
        let n = self.route.steps.len();
        let glen = self.route.geometry.len();
        if i == n - 1 {
            self.status = TripStatus::Arrived;
            let snapped = match self.last_snapped {
                Some(q) => q,
                None => self.route.geometry[0],
            };
            let upd = NavigationStateUpdate {
                status: TripStatus::Arrived,
                active_step_index: i,
                remaining_step_distance_mm: 0,
                remaining_total_distance_mm: 0,
                snapped_location: snapped,
                deviation: false,
                spoken_instructions: Vec::new(),
                visual_instructions: Vec::new(),
            };
            proof {
                assert(state_of(*self) =~= spec_advance_op(c, s0).0);
                assert(update_view(upd).spoken =~= Seq::<SpokenInstruction>::empty());
                assert(update_view(upd).visual =~= Seq::<VisualInstructions>::empty());
                assert(update_view(upd) =~= spec_advance_op(c, s0).1);
            }
            return upd;
        }
        let i2 = i + 1;
        self.status = TripStatus::Navigating;
        self.active_step_index = i2;
        let b2s = self.boundaries[i2];
        let b2e = self.boundaries[i2 + 1];
        proof {
            lemma_bounds_increasing(c, i2 + 1, n as int);
            assert(b2s as int == spec_bounds(c)[i2 as int]);
            assert(b2e as int == spec_bounds(c)[i2 + 1]);
        }
        let cum2: u64 = match self.last_snapped {
            Some(q) => project_onto_path_range(q, &self.route.geometry, b2s, b2e).cumulative_mm,
            None => 0,
        };
        let len2 = path_range_length_mm(&self.route.geometry, b2s, b2e);
        let rem_step: u64 = if cum2 >= len2 {
            0
        } else {
            len2 - cum2
        };
        let suffix = path_range_length_mm(&self.route.geometry, b2e, glen - 1);
        proof {
            crate::geometry::lemma_range_length_additive(
                c.route.geometry@,
                b2s as int,
                b2e as int,
                glen - 1,
            );
            crate::geometry::lemma_range_length_bounds(c.route.geometry@, b2s as int, glen - 1);
            assert((glen - 1 - b2s) * MAX_DISTANCE_MM <= 200_000_000 * MAX_DISTANCE_MM)
                by (nonlinear_arith)
                requires
                    0 <= (glen - 1 - b2s) <= 200_000_000,
            ;
        }
        let rem_total = rem_step + suffix;
        let snapped = match self.last_snapped {
            Some(q) => q,
            None => self.route.geometry[b2s],
        };
        let upd = NavigationStateUpdate {
            status: TripStatus::Navigating,
            active_step_index: i2,
            remaining_step_distance_mm: rem_step,
            remaining_total_distance_mm: rem_total,
            snapped_location: snapped,
            deviation: false,
            spoken_instructions: Vec::new(),
            visual_instructions: Vec::new(),
        };
        proof {
            assert(state_of(*self) =~= spec_advance_op(c, s0).0);
            assert(update_view(upd).spoken =~= Seq::<SpokenInstruction>::empty());
            assert(update_view(upd).visual =~= Seq::<VisualInstructions>::empty());
            assert(update_view(upd) =~= spec_advance_op(c, s0).1);
        }
        upd
    }

    /// Cancels the session: transitions to `Stopped` from any non-terminal
    /// state; idempotent, and without effect after arrival.
    pub fn stop(&mut self)
        requires
            old(self).wf(),
        ensures
            final(self).wf(),
            final(self).status == (if old(self).status == TripStatus::Arrived {
                TripStatus::Arrived
            } else {
                TripStatus::Stopped
            }),
            final(self).route == old(self).route,
            final(self).config == old(self).config,
            final(self).boundaries == old(self).boundaries,
            final(self).active_step_index == old(self).active_step_index,
            final(self).consumed_spoken == old(self).consumed_spoken,
            final(self).consumed_visual == old(self).consumed_visual,
            final(self).last_snapped == old(self).last_snapped,
    {
        if !matches!(self.status, TripStatus::Arrived) {
            self.status = TripStatus::Stopped;
        }
    }
}

/// The total length of steps `j` and later, in millimeters.
pub open spec fn spec_steps_length_sum(c: NavigationController, j: int) -> int
    decreases c.route.steps@.len() - j,
{
    if j < 0 || j >= c.route.steps@.len() {
        0
    } else {
        spec_step_length(c, j) + spec_steps_length_sum(c, j + 1)
    }
}

/// The geometry after the end of step `j` measures exactly the sum of the
/// full lengths of all subsequent steps.
pub proof fn lemma_suffix_is_steps_sum(c: NavigationController, j: int)
    requires
        c.wf(),
        0 <= j < c.route.steps@.len(),
    ensures
        spec_range_length_mm(
            c.route.geometry@,
            spec_step_end(c, j),
            c.route.geometry@.len() - 1,
        ) == spec_steps_length_sum(c, j + 1),
    decreases c.route.steps@.len() - j,
{
    lemma_bounds_facts(c);
    let n = c.route.steps@.len() as int;
    if j == n - 1 {
    } else {
        lemma_suffix_is_steps_sum(c, j + 1);
        lemma_bounds_increasing(c, j + 1, j + 2);
        lemma_bounds_increasing(c, j + 2, n);
        crate::geometry::lemma_range_length_additive(
            c.route.geometry@,
            spec_step_end(c, j),
            spec_step_end(c, j + 1),
            c.route.geometry@.len() - 1,
        );
    }
}

/// Law: every update reports a remaining distance for the whole route equal
/// to the remaining distance on the active step plus the sum of the full
/// lengths of all subsequent steps.
pub proof fn lemma_distance_consistency(
    c: NavigationController,
    s: NavState,
    location: UserLocation,
)
    requires
        c.wf(),
        s.status == TripStatus::NotStarted || s.status == TripStatus::Navigating,
        0 <= s.active < c.route.steps@.len(),
    ensures
        ({
            let (s2, u) = spec_process(c, s, location);
            u.status == TripStatus::Navigating ==> u.remaining_total == u.remaining_step
                + spec_steps_length_sum(c, s2.active + 1)
        }),
{
    let (s2, u) = spec_process(c, s, location);
    if u.status == TripStatus::Navigating {
        lemma_suffix_is_steps_sum(c, s2.active);
    }
}

/// Law: for any sequence of updates the active step index is
/// non-decreasing, and a single fix advances it by at most one step.
pub proof fn lemma_monotonic_step_index(
    c: NavigationController,
    s: NavState,
    location: UserLocation,
)
    ensures
        s.active <= spec_process(c, s, location).0.active <= s.active + 1,
{
}

/// After a marking pass nothing is left to become due at the same snapped
/// location: every spoken instruction within the radius is now consumed.
proof fn lemma_due_after_mark_spoken(
    instrs: Seq<SpokenInstruction>,
    row: Seq<bool>,
    snapped: GeographicCoordinates,
    radius: u64,
    k: int,
)
    requires
        row.len() == instrs.len(),
        k <= instrs.len(),
    ensures
        spec_due_spoken_list(
            instrs,
            spec_mark_row_spoken(instrs, row, snapped, radius),
            snapped,
            radius,
            k,
        ) == Seq::<SpokenInstruction>::empty(),
    decreases k,
{
    if k <= 0 {
    } else {
        lemma_due_after_mark_spoken(instrs, row, snapped, radius, k - 1);
    }
}

/// As [`lemma_due_after_mark_spoken`], for visual instructions.
proof fn lemma_due_after_mark_visual(
    instrs: Seq<VisualInstructions>,
    row: Seq<bool>,
    snapped: GeographicCoordinates,
    radius: u64,
    k: int,
)
    requires
        row.len() == instrs.len(),
        k <= instrs.len(),
    ensures
        spec_due_visual_list(
            instrs,
            spec_mark_row_visual(instrs, row, snapped, radius),
            snapped,
            radius,
            k,
        ) == Seq::<VisualInstructions>::empty(),
    decreases k,
{
    if k <= 0 {
    } else {
        lemma_due_after_mark_visual(instrs, row, snapped, radius, k - 1);
    }
}

/// Marking a row twice at the same snapped location marks it once.
proof fn lemma_mark_idempotent_spoken(
    instrs: Seq<SpokenInstruction>,
    row: Seq<bool>,
    snapped: GeographicCoordinates,
    radius: u64,
)
    ensures
        spec_mark_row_spoken(
            instrs,
            spec_mark_row_spoken(instrs, row, snapped, radius),
            snapped,
            radius,
        ) == spec_mark_row_spoken(instrs, row, snapped, radius),
{
    assert(spec_mark_row_spoken(
        instrs,
        spec_mark_row_spoken(instrs, row, snapped, radius),
        snapped,
        radius,
    ) =~= spec_mark_row_spoken(instrs, row, snapped, radius));
}

/// As [`lemma_mark_idempotent_spoken`], for visual instructions.
proof fn lemma_mark_idempotent_visual(
    instrs: Seq<VisualInstructions>,
    row: Seq<bool>,
    snapped: GeographicCoordinates,
    radius: u64,
)
    ensures
        spec_mark_row_visual(
            instrs,
            spec_mark_row_visual(instrs, row, snapped, radius),
            snapped,
            radius,
        ) == spec_mark_row_visual(instrs, row, snapped, radius),
{
    assert(spec_mark_row_visual(
        instrs,
        spec_mark_row_visual(instrs, row, snapped, radius),
        snapped,
        radius,
    ) =~= spec_mark_row_visual(instrs, row, snapped, radius));
}

/// Law: duplicate fixes are idempotent. When processing a fix leaves the
/// session navigating the same step, processing the same fix again yields
/// an update identical in status, step index, remaining distances, snapped
/// location and deviation flag, surfaces no instruction (everything due at
/// that location was consumed by the first update), and leaves the session
/// state unchanged.
pub proof fn lemma_duplicate_fix_idempotent(
    c: NavigationController,
    s: NavState,
    location: UserLocation,
)
    requires
        c.wf(),
        s.status == TripStatus::NotStarted || s.status == TripStatus::Navigating,
        0 <= s.active < c.route.steps@.len(),
        s.consumed_spoken.len() == c.route.steps@.len(),
        s.consumed_visual.len() == c.route.steps@.len(),
        forall|j: int|
            0 <= j < c.route.steps@.len() ==> (#[trigger] s.consumed_spoken[j]).len()
                == c.route.steps@[j].spoken_instructions@.len(),
        forall|j: int|
            0 <= j < c.route.steps@.len() ==> (#[trigger] s.consumed_visual[j]).len()
                == c.route.steps@[j].visual_instructions@.len(),
    ensures
        ({
            let (s1, u1) = spec_process(c, s, location);
            let (s2, u2) = spec_process(c, s1, location);
            (s1.status == TripStatus::Navigating && s1.active == s.active) ==> {
                &&& u2.status == u1.status
                &&& u2.active == u1.active
                &&& u2.remaining_step == u1.remaining_step
                &&& u2.remaining_total == u1.remaining_total
                &&& u2.snapped == u1.snapped
                &&& u2.deviation == u1.deviation
                &&& u2.spoken == Seq::<SpokenInstruction>::empty()
                &&& u2.visual == Seq::<VisualInstructions>::empty()
                &&& s2 == s1
            }
        }),
{
    let (s1, u1) = spec_process(c, s, location);
    let (s2, u2) = spec_process(c, s1, location);
    if s1.status == TripStatus::Navigating && s1.active == s.active {
        let p = spec_clamped(location.coordinates);
        let acc = location.horizontal_accuracy;
        let i = s.active;
        let n = c.route.steps@.len() as int;
        let adv = spec_advances(c, i, p, acc);
        if adv {
            if i == n - 1 {
                assert(false);
            } else {
                assert(s1.active == i + 1);
                assert(false);
            }
        }
        let snapped = spec_snapped_location(c, i, p);
        let s_radius = c.config.spoken_instruction_trigger_distance_mm;
        let v_radius = c.config.visual_instruction_trigger_distance_mm;
        assert(s1.consumed_spoken[i] == spec_mark_row_spoken(
            c.route.steps@[i].spoken_instructions@,
            s.consumed_spoken[i],
            snapped,
            s_radius,
        ));
        lemma_due_after_mark_spoken(
            c.route.steps@[i].spoken_instructions@,
            s.consumed_spoken[i],
            snapped,
            s_radius,
            c.route.steps@[i].spoken_instructions@.len() as int,
        );
        lemma_due_after_mark_visual(
            c.route.steps@[i].visual_instructions@,
            s.consumed_visual[i],
            snapped,
            v_radius,
            c.route.steps@[i].visual_instructions@.len() as int,
        );
        if i + 1 < n {
            lemma_due_after_mark_spoken(
                c.route.steps@[i + 1].spoken_instructions@,
                s.consumed_spoken[i + 1],
                snapped,
                s_radius,
                c.route.steps@[i + 1].spoken_instructions@.len() as int,
            );
            lemma_due_after_mark_visual(
                c.route.steps@[i + 1].visual_instructions@,
                s.consumed_visual[i + 1],
                snapped,
                v_radius,
                c.route.steps@[i + 1].visual_instructions@.len() as int,
            );
            assert(u2.spoken =~= Seq::<SpokenInstruction>::empty());
            assert(u2.visual =~= Seq::<VisualInstructions>::empty());
        } else {
            assert(u2.spoken =~= Seq::<SpokenInstruction>::empty());
            assert(u2.visual =~= Seq::<VisualInstructions>::empty());
        }
        assert forall|j: int| 0 <= j < s1.consumed_spoken.len() implies s2.consumed_spoken[j]
            == s1.consumed_spoken[j] by {
            if j == i || (j == i + 1 && i + 1 < n) {
                lemma_mark_idempotent_spoken(
                    c.route.steps@[j].spoken_instructions@,
                    s.consumed_spoken[j],
                    snapped,
                    s_radius,
                );
            }
        }
        assert forall|j: int| 0 <= j < s1.consumed_visual.len() implies s2.consumed_visual[j]
            == s1.consumed_visual[j] by {
            if j == i || (j == i + 1 && i + 1 < n) {
                lemma_mark_idempotent_visual(
                    c.route.steps@[j].visual_instructions@,
                    s.consumed_visual[j],
                    snapped,
                    v_radius,
                );
            }
        }
        assert(s2.consumed_spoken =~= s1.consumed_spoken);
        assert(s2.consumed_visual =~= s1.consumed_visual);
        assert(s2 =~= s1);
    }
}

/// Whether every instruction trigger point of every step is in range.
fn all_instrs_in_range(steps: &Vec<RouteStep>) -> (r: bool)
    ensures
        r == instrs_in_range(steps@),
{
    let mut j: usize = 0;
    while j < steps.len()
        invariant
            j <= steps@.len(),
            forall|t: int|
                0 <= t < j ==> {
                    &&& (forall|k: int|
                        0 <= k < (#[trigger] steps@[t]).spoken_instructions@.len()
                            ==> coord_in_range(
                            #[trigger] steps@[t].spoken_instructions@[k].trigger_at,
                        ))
                    &&& (forall|k: int|
                        0 <= k < steps@[t].visual_instructions@.len() ==> coord_in_range(
                            #[trigger] steps@[t].visual_instructions@[k].trigger_at,
                        ))
                },
        decreases steps@.len() - j,
    {
        if !all_spoken_in_range(&steps[j].spoken_instructions) {
            return false;
        }
        if !all_visual_in_range(&steps[j].visual_instructions) {
            return false;
        }
        j = j + 1;
    }
    true
}

} // verus!
