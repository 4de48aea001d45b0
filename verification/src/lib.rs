//! Core decision logic for turn-by-turn navigation: a fixed-point geometry
//! kernel, a validated route model, pluggable step-advance policies, an
//! instruction trigger, and the navigation state machine that ties them
//! together. All computation is integer-only and deterministic; acquiring
//! routes, sourcing device locations, and presenting guidance are the
//! caller's concern.

pub mod models;
pub mod geometry;
pub mod route_model;
pub mod navigation_controller;

pub use models::{
    CourseOverGround, GeographicCoordinates, ManeuverModifier, ManeuverType, NavigationError,
    Route, RouteStep, SpokenInstruction, UserLocation, VisualInstructionContent,
    VisualInstructions,
};
pub use navigation_controller::{
    NavigationController, NavigationControllerConfig, NavigationStateUpdate, StepAdvanceMode,
    TripStatus,
};
