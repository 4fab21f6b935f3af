//! The aircraft record: where it is, what it aims for and which part of its
//! flight it is in.

use vstd::prelude::*;

use crate::geometry::{Point, FULL_TURN};
use crate::names::Name;
use crate::pathfinder::Node;
use crate::wayfinder::{FlightPlan, FlightPlanView};
use crate::world::{Runway, ALTITUDE_LIMIT, SPEED_LIMIT};

verus! {

/// How an aircraft that taxis stands to the traffic around it.
#[derive(Clone, Copy, Debug, PartialEq, Eq, Structural)]
pub enum TaxiingState {
    /// Moves, and stops for traffic.
    Armed,
    /// Stopped for traffic.
    Stopped,
    /// Held by the controller.
    Holding,
    /// Moves, and does not stop for traffic until it is clear of it.
    Override,
}

/// How far a landing has come.
#[derive(Clone, Copy, Debug, PartialEq, Eq, Structural)]
pub enum LandingState {
    /// Flies toward the extended centerline.
    Approach,
    /// On the centerline and on the descent path.
    Established,
    /// On the runway.
    Touchdown,
}

impl LandingState {
    /// Whether the aircraft has captured the centerline.
    pub open spec fn is_established(self) -> bool {
        self == LandingState::Established || self == LandingState::Touchdown
    }

    /// Whether the aircraft has captured the centerline.
    pub fn established(&self) -> (r: bool)
        ensures
            r == self.is_established(),
    {
        match self {
            LandingState::Approach => false,
            LandingState::Established => true,
            LandingState::Touchdown => true,
        }
    }
}

/// How an aircraft moves.
#[allow(inconsistent_fields)]
#[derive(Clone, Debug, PartialEq, Eq)]
pub enum AircraftState {
    Parked { at: Node<Point> },
    Taxiing { current: Node<Point>, waypoints: Vec<Node<Point>>, state: TaxiingState },
    Flying,
    Landing { runway: Runway, state: LandingState },
}

#[allow(inconsistent_fields)]
/// The mathematical value of an `AircraftState`. The waypoints of a taxi
/// route are used up from the back: the last one is the next.
pub enum AircraftStateView {
    Parked { at: Node<Point> },
    Taxiing { current: Node<Point>, waypoints: Seq<Node<Point>>, state: TaxiingState },
    Flying,
    Landing { runway: Runway, state: LandingState },
}

impl View for AircraftState {
    type V = AircraftStateView;

    open spec fn view(&self) -> AircraftStateView {
        match *self {
            AircraftState::Parked { at } => AircraftStateView::Parked { at },
            AircraftState::Taxiing { current, waypoints, state } => AircraftStateView::Taxiing {
                current,
                waypoints: waypoints@,
                state,
            },
            AircraftState::Flying => AircraftStateView::Flying,
            AircraftState::Landing { runway, state } => AircraftStateView::Landing {
                runway,
                state,
            },
        }
    }
}

impl AircraftStateView {
    /// The nodes of the state lie on the map, a runway that is landed on is sound.
    pub open spec fn wf(self) -> bool {
        match self {
            AircraftStateView::Parked { at } => at.data.in_range(),
            AircraftStateView::Taxiing { current, waypoints, state } => {
                &&& current.data.in_range()
                &&& forall|i: int|
                    0 <= i < waypoints.len() ==> (#[trigger] waypoints[i]).data.in_range()
            },
            AircraftStateView::Flying => true,
            AircraftStateView::Landing { runway, state } => runway.wf(),
        }
    }

    /// Whether the aircraft is on the ground.
    pub open spec fn on_ground(self) -> bool {
        self is Parked || self is Taxiing
    }
}

/// The part of its flight that an aircraft is in.
#[derive(Clone, Copy, Debug, PartialEq, Eq, Structural)]
pub enum FlightSegment {
    Dormant,
    Boarding,
    Parked,
    TaxiDep,
    Takeoff,
    Departure,
    Climb,
    Cruise,
    Arrival,
    Approach,
    Landing,
    TaxiArr,
}

impl FlightSegment {
    /// Whether the segment is flown.
    pub open spec fn is_in_air(self) -> bool {
        match self {
            FlightSegment::Departure
            | FlightSegment::Climb
            | FlightSegment::Cruise
            | FlightSegment::Arrival
            | FlightSegment::Approach
            | FlightSegment::Landing => true,
            _ => false,
        }
    }

    /// Whether the segment is flown.
    pub fn in_air(&self) -> (r: bool)
        ensures
            r == self.is_in_air(),
    {
        match self {
            FlightSegment::Departure => true,
            FlightSegment::Climb => true,
            FlightSegment::Cruise => true,
            FlightSegment::Arrival => true,
            FlightSegment::Approach => true,
            FlightSegment::Landing => true,
            _ => false,
        }
    }

    /// Whether an aircraft that stands at a gate can be in the segment.
    pub open spec fn allows_parked(self) -> bool {
        match self {
            FlightSegment::TaxiDep
            | FlightSegment::Takeoff
            | FlightSegment::Departure
            | FlightSegment::Climb
            | FlightSegment::Cruise
            | FlightSegment::Arrival
            | FlightSegment::Approach
            | FlightSegment::Landing => false,
            _ => true,
        }
    }
}

/// The advisory of the collision avoidance system.
#[derive(Clone, Copy, Debug, PartialEq, Eq, Structural)]
pub enum TCAS {
    Idle,
    /// Traffic advisory.
    Warning,
    /// Hold the altitude after a resolution advisory.
    Hold,
    /// Resolution advisory: climb.
    Climb,
    /// Resolution advisory: descend.
    Descend,
}

impl TCAS {
    /// Whether the advisory is a resolution advisory.
    pub open spec fn is_resolution(self) -> bool {
        self == TCAS::Climb || self == TCAS::Descend
    }

    /// Whether the advisory is a resolution advisory.
    pub fn is_ra(&self) -> (r: bool)
        ensures
            r == self.is_resolution(),
    {
        match self {
            TCAS::Climb => true,
            TCAS::Descend => true,
            _ => false,
        }
    }

    /// Whether nothing is advised.
    pub fn is_idle(&self) -> (r: bool)
        ensures
            r == (*self == TCAS::Idle),
    {
        match self {
            TCAS::Idle => true,
            _ => false,
        }
    }
}

/// What an aircraft aims for.
#[derive(Clone, Copy, Debug, PartialEq, Eq)]
pub struct AircraftTargets {
    pub heading: i64,
    pub altitude: i64,
    pub speed: i64,
}

impl AircraftTargets {
    /// The heading target is a compass heading, the others are within the limits.
    pub open spec fn wf(self) -> bool {
        &&& 0 <= self.heading < FULL_TURN
        &&& 0 <= self.altitude <= ALTITUDE_LIMIT
        &&& 0 <= self.speed <= SPEED_LIMIT
    }
}

/// The spacing that an aircraft keeps on arrival.
#[derive(Clone, Copy, Debug, PartialEq, Eq)]
pub struct SeparationMinima {
    pub min_speed: i64,
    pub max_speed: i64,
    /// The distance wanted behind the aircraft ahead.
    pub separation_distance: i64,
    /// The greatest side-step from the course.
    pub max_deviation_angle: i64,
}

impl SeparationMinima {
    /// The speeds are in order and within the limit, the distance is on the
    /// map and the deviation is not negative.
    pub open spec fn wf(self) -> bool {
        &&& 0 <= self.min_speed <= self.max_speed <= SPEED_LIMIT
        &&& 0 <= self.separation_distance <= 1_000_000_000_000
        &&& 0 <= self.max_deviation_angle
    }
}

/// How fast an aircraft can change its course, altitude and speed, each in
/// thousandths of a unit per second.
#[derive(Clone, Copy, Debug, PartialEq, Eq)]
pub struct Performance {
    /// Degrees per second.
    pub turn_rate: i64,
    /// Feet per second.
    pub climb_rate: i64,
    /// Knots per second, gaining speed.
    pub acceleration: i64,
    /// Knots per second, losing speed.
    pub deceleration: i64,
}

impl Performance {
    /// Every rate is positive and within the limits of the model: a full
    /// turn, a thousand feet and the speed limit by the second.
    pub open spec fn wf(self) -> bool {
        &&& 0 < self.turn_rate <= FULL_TURN
        &&& 0 < self.climb_rate <= 1_000_000
        &&& 0 < self.acceleration <= SPEED_LIMIT
        &&& 0 < self.deceleration <= SPEED_LIMIT
    }
}

/// An aircraft.
#[derive(Clone, Debug, PartialEq, Eq)]
pub struct Aircraft {
    pub id: Name,
    pub pos: Point,
    pub altitude: i64,
    pub heading: i64,
    pub speed: i64,
    pub target: AircraftTargets,
    /// The airport whose airspace the aircraft is in.
    pub airspace: Option<Name>,
    pub frequency: i64,
    pub state: AircraftState,
    pub segment: FlightSegment,
    pub tcas: TCAS,
    pub flight_plan: FlightPlan,
    /// The tick at which the flight began.
    pub flight_time: Option<usize>,
    pub minima: SeparationMinima,
    pub performance: Performance,
}

/// The mathematical value of an aircraft.
pub struct AircraftView {
    pub id: Name,
    pub pos: Point,
    pub altitude: i64,
    pub heading: i64,
    pub speed: i64,
    pub target: AircraftTargets,
    pub airspace: Option<Name>,
    pub frequency: i64,
    pub state: AircraftStateView,
    pub segment: FlightSegment,
    pub tcas: TCAS,
    pub flight_plan: FlightPlanView,
    pub flight_time: Option<usize>,
    pub minima: SeparationMinima,
    pub performance: Performance,
}

impl View for Aircraft {
    type V = AircraftView;

    open spec fn view(&self) -> AircraftView {
        AircraftView {
            id: self.id,
            pos: self.pos,
            altitude: self.altitude,
            heading: self.heading,
            speed: self.speed,
            target: self.target,
            airspace: self.airspace,
            frequency: self.frequency,
            state: self.state@,
            segment: self.segment,
            tcas: self.tcas,
            flight_plan: self.flight_plan@,
            flight_time: self.flight_time,
            minima: self.minima,
            performance: self.performance,
        }
    }
}

impl AircraftView {
    /// The aircraft lies on the map, its heading is a compass heading, its
    /// altitude, speed and targets are within the limits, its side-step is
    /// no more than its greatest deviation, and its plan and state are sound.
    pub open spec fn wf(self) -> bool {
        &&& self.pos.in_range()
        &&& 0 <= self.heading < FULL_TURN
        &&& 0 <= self.altitude <= ALTITUDE_LIMIT
        &&& 0 <= self.speed <= SPEED_LIMIT
        &&& self.target.wf()
        &&& self.state.wf()
        &&& self.flight_plan.wf()
        &&& 0 <= self.flight_plan.altitude <= ALTITUDE_LIMIT
        &&& 0 <= self.flight_plan.speed <= SPEED_LIMIT
        &&& -self.minima.max_deviation_angle <= self.flight_plan.course_offset
            <= self.minima.max_deviation_angle
        &&& self.minima.wf()
        &&& self.performance.wf()
    }
}

fn nodes_on_map(nodes: &Vec<Node<Point>>) -> (r: bool)
    ensures
        r == forall|i: int| 0 <= i < nodes@.len() ==> (#[trigger] nodes@[i]).data.in_range(),
{
    let mut i: usize = 0;
    while i < nodes.len()
        invariant
            i <= nodes@.len(),
            forall|j: int| 0 <= j < i ==> (#[trigger] nodes@[j]).data.in_range(),
        decreases nodes.len() - i,
    {
        if !nodes[i].data.is_in_range() {
            return false;
        }
        i = i + 1;
    }
    true
}

impl AircraftState {
    /// Whether the state is sound.
    pub fn is_wf(&self) -> (r: bool)
        ensures
            r == self@.wf(),
    {
        match self {
            AircraftState::Parked { at } => at.data.is_in_range(),
            AircraftState::Taxiing { current, waypoints, .. } => current.data.is_in_range()
                && nodes_on_map(waypoints),
            AircraftState::Flying => true,
            AircraftState::Landing { runway, .. } => runway.is_wf(),
        }
    }
}

impl Aircraft {
    /// Whether the aircraft is sound.
    pub fn is_wf(&self) -> (r: bool)
        ensures
            r == self@.wf(),
    {
        let minima = self.minima;
        let performance = self.performance;
        self.pos.is_in_range() && 0 <= self.heading && self.heading < FULL_TURN && 0
            <= self.altitude && self.altitude <= ALTITUDE_LIMIT && 0 <= self.speed && self.speed
            <= SPEED_LIMIT && 0 <= self.target.heading && self.target.heading < FULL_TURN && 0
            <= self.target.altitude && self.target.altitude <= ALTITUDE_LIMIT && 0
            <= self.target.speed && self.target.speed <= SPEED_LIMIT && self.state.is_wf()
            && self.flight_plan.is_wf() && 0 <= self.flight_plan.altitude
            && self.flight_plan.altitude <= ALTITUDE_LIMIT && 0 <= self.flight_plan.speed
            && self.flight_plan.speed <= SPEED_LIMIT && 0 <= minima.max_deviation_angle
            && -minima.max_deviation_angle
            <= self.flight_plan.course_offset && self.flight_plan.course_offset
            <= minima.max_deviation_angle && 0 <= minima.min_speed && minima.min_speed
            <= minima.max_speed && minima.max_speed <= SPEED_LIMIT && 0
            <= minima.separation_distance && minima.separation_distance <= 1_000_000_000_000 && 0
            < performance.turn_rate && performance.turn_rate <= FULL_TURN && 0
            < performance.climb_rate && performance.climb_rate <= 1_000_000 && 0
            < performance.acceleration && performance.acceleration <= SPEED_LIMIT && 0
            < performance.deceleration && performance.deceleration <= SPEED_LIMIT
    }

    /// The spacing that the aircraft keeps on arrival.
    pub fn separation_minima(&self) -> (r: SeparationMinima)
        ensures
            r == self.minima,
    {
        self.minima
    }

    /// The rate at which the aircraft climbs and descends, in thousandths of
    /// a foot per second.
    pub fn climb_speed(&self) -> (r: i64)
        ensures
            r == self.performance.climb_rate,
    {
        self.performance.climb_rate
    }
}

} // verus!
