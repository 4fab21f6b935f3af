//! What each tick does to an aircraft by itself: it follows its taxi route,
//! its landing and its flight plan, moves toward its targets, moves on, and
//! finds out where and in which part of its flight it is.

use vstd::prelude::*;

use crate::aircraft::{
    Aircraft, AircraftState, AircraftStateView, AircraftTargets, AircraftView, FlightSegment,
    LandingState, TaxiingState,
};
use crate::engine::{addressed, events_view, Event};
use crate::events::{emit, held, EventKind, EventKindView, Outcome};
use crate::geometry::{
    abs_i64, angle_between_points, bearing_between, delta_angle, distance_squared,
    distance_squared_of, integer_sqrt, magnitude, move_point, moved_point, normalize_angle,
    normalized, root_of, turn_between, Point, KNOT_TO_FEET_PER_SECOND,
};
use crate::pathfinder::{Node, NodeBehavior, NodeKind};
use crate::search::{first_index, lemma_first_index_absent, lemma_first_index_found};
use crate::wayfinder::{FlightPlanView, VORLimit};
use crate::world::{Airport, World, ALTITUDE_LIMIT, SPEED_LIMIT};

verus! {

/// The value after one step from `value` toward `target`, of at most `up`
/// upward or `down` downward.
pub open spec fn stepped_toward(value: int, target: int, up: int, down: int) -> int {
    if value < target {
        if target - value <= up {
            target
        } else {
            value + up
        }
    } else if value - target <= down {
        target
    } else {
        value - down
    }
}

fn step_toward(value: i64, target: i64, up: i64, down: i64) -> (r: i64)
    requires
        0 <= value <= 1_000_000_000,
        0 <= target <= 1_000_000_000,
        0 <= up <= 1_000_000_000,
        0 <= down <= 1_000_000_000,
    ensures
        r == stepped_toward(value as int, target as int, up as int, down as int),
        value <= r <= target || target <= r <= value,
{
    if value < target {
        if target - value <= up {
            target
        } else {
            value + up
        }
    } else if value - target <= down {
        target
    } else {
        value - down
    }
}

/// The heading after one step of at most `step` from `heading` toward
/// `target`, the short way round.
pub open spec fn turned_toward(heading: int, target: int, step: int) -> int {
    let turn = turn_between(heading, target);
    if magnitude(turn) <= step {
        target
    } else if turn > 0 {
        normalized(heading + step)
    } else {
        normalized(heading - step)
    }
}

fn turn_toward(heading: i64, target: i64, step: i64) -> (r: i64)
    requires
        0 <= heading < 360_000,
        0 <= target < 360_000,
        0 <= step <= 360_000,
    ensures
        r == turned_toward(heading as int, target as int, step as int),
        0 <= r < 360_000,
{
    let turn = delta_angle(heading, target);
    if abs_i64(turn) <= step {
        target
    } else if turn > 0 {
        normalize_angle(heading + step)
    } else {
        normalize_angle(heading - step)
    }
}

/// The way that an aircraft covers in one tick: its speed in knots times
/// 1.68781 feet per second, by the number of ticks in a second.
pub open spec fn way_per_tick(speed: int, ticks_per_second: int) -> int {
    (speed * KNOT_TO_FEET_PER_SECOND) / (100_000 * ticks_per_second)
}

impl AircraftView {
    /// The aircraft after it has moved toward its targets for one tick: it
    /// turns, the short way round, by no more than its turn rate allows,
    /// and gains or loses speed and altitude by no more than its
    /// performance allows.
    #[verifier::opaque]
    pub open spec fn toward_targets(self, ticks_per_second: int) -> AircraftView {
        AircraftView {
            heading: turned_toward(
                self.heading as int,
                self.target.heading as int,
                (self.performance.turn_rate as int) / ticks_per_second,
            ) as i64,
            speed: stepped_toward(
                self.speed as int,
                self.target.speed as int,
                (self.performance.acceleration as int) / ticks_per_second,
                (self.performance.deceleration as int) / ticks_per_second,
            ) as i64,
            altitude: stepped_toward(
                self.altitude as int,
                self.target.altitude as int,
                (self.performance.climb_rate as int) / ticks_per_second,
                (self.performance.climb_rate as int) / ticks_per_second,
            ) as i64,
            ..self
        }
    }

    /// The aircraft after it has moved on along its heading for one tick.
    #[verifier::opaque]
    pub open spec fn moved_on(self, ticks_per_second: int) -> AircraftView {
        AircraftView {
            pos: moved_point(
                self.pos,
                self.heading as int,
                way_per_tick(self.speed as int, ticks_per_second),
            ),
            ..self
        }
    }
}

/// Whether a point is within the range of an airport.
pub open spec fn in_airspace(pos: Point, airport: Airport) -> bool {
    distance_squared_of(pos, airport.center) <= airport.radius * airport.radius
}

impl AircraftView {
    /// The aircraft in the airspace of the first airport of the world within
    /// whose range it is, or in none.
    #[verifier::opaque]
    pub open spec fn in_airspace_of(self, world: &World) -> AircraftView {
        AircraftView {
            airspace: match first_index(
                world.airports@,
                |airport: Airport| in_airspace(self.pos, airport),
            ) {
                Some(i) => Some(world.airports@[i].id),
                None => None,
            },
            ..self
        }
    }
}

/// What a rate by the second comes to in one tick.
fn per_tick(rate: i64, ticks_per_second: usize) -> (r: i64)
    requires
        0 <= rate,
        0 < ticks_per_second,
    ensures
        r == (rate as int) / (ticks_per_second as int),
        0 <= r <= rate,
{
    let r: i128 = rate as i128 / ticks_per_second as i128;
    assert(0 <= r <= rate) by (nonlinear_arith)
        requires
            r == (rate as int) / (ticks_per_second as int),
            0 <= rate,
            0 < ticks_per_second,
    ;
    r as i64
}

impl Aircraft {
    /// Moves heading, speed and altitude toward their targets for one tick.
    pub fn update_from_targets(&mut self, ticks_per_second: usize)
        requires
            old(self)@.wf(),
            0 < ticks_per_second,
        ensures
            final(self)@ == old(self)@.toward_targets(ticks_per_second as int),
            final(self)@.wf(),
            final(self)@.id == old(self)@.id,
    {
        reveal(AircraftView::toward_targets);
        let turn = per_tick(self.performance.turn_rate, ticks_per_second);
        let gain = per_tick(self.performance.acceleration, ticks_per_second);
        let loss = per_tick(self.performance.deceleration, ticks_per_second);
        let climb = per_tick(self.performance.climb_rate, ticks_per_second);
        self.heading = turn_toward(self.heading, self.target.heading, turn);
        self.speed = step_toward(self.speed, self.target.speed, gain, loss);
        self.altitude = step_toward(self.altitude, self.target.altitude, climb, climb);
    }

    /// Moves the aircraft on along its heading for one tick.
    pub fn update_position(&mut self, ticks_per_second: usize)
        requires
            old(self)@.wf(),
            0 < ticks_per_second,
        ensures
            final(self)@ == old(self)@.moved_on(ticks_per_second as int),
            final(self)@.wf(),
            final(self)@.id == old(self)@.id,
    {
        reveal(AircraftView::moved_on);
        let speed: i128 = self.speed as i128;
        let per_second: i128 = speed * KNOT_TO_FEET_PER_SECOND as i128;
        let way: i128 = per_second / (100_000 * ticks_per_second as i128);
        assert(0 <= way <= per_second) by (nonlinear_arith)
            requires
                way == (per_second as int) / (100_000 * ticks_per_second as int),
                0 <= per_second,
                0 < ticks_per_second,
        ;
        self.pos = move_point(self.pos, self.heading, way as i64);
    }

    /// Finds the airspace that the aircraft is in.
    pub fn update_airspace(&mut self, world: &World)
        requires
            old(self)@.wf(),
            world.wf(),
        ensures
            final(self)@ == old(self)@.in_airspace_of(world),
            final(self)@.wf(),
            final(self)@.id == old(self)@.id,
    {
        reveal(AircraftView::in_airspace_of);
        let pos = self.pos;
        let ghost within = |airport: Airport| in_airspace(pos, airport);
        let mut i: usize = 0;
        while i < world.airports.len()
            invariant
                *self == *old(self),
                self@.wf(),
                pos == self.pos,
                world.wf(),
                i <= world.airports@.len(),
                within == (|airport: Airport| in_airspace(pos, airport)),
                forall|j: int| 0 <= j < i ==> !within(#[trigger] world.airports@[j]),
            decreases world.airports.len() - i,
        {
            let airport = &world.airports[i];
            assert(world.airports@[i as int].wf());
            let radius: i128 = airport.radius as i128;
            assert(0 <= radius * radius <= 1_000_000_000_000 * 1_000_000_000_000)
                by (nonlinear_arith)
                requires
                    0 <= radius <= 1_000_000_000_000,
            ;
            if distance_squared(pos, airport.center) <= radius * radius {
                proof {
                    reveal(AircraftView::in_airspace_of);
                    lemma_first_index_found(world.airports@, within, i as int);
                }
                self.airspace = Some(airport.id);
                return;
            }
            i = i + 1;
        }
        proof {
            lemma_first_index_absent(world.airports@, within);
        }
        self.airspace = None;
    }
}

/// The square of fifty feet: how near a taxi waypoint counts as reached.
pub const ARRIVAL_RADIUS_SQUARED: i128 = 2_500_000_000;

/// The square of one nautical mile: how near an en-route waypoint counts as
/// reached.
pub const CAPTURE_RADIUS_SQUARED: i128 = 36_919_234_254_400;

/// Five degrees: how far off the centerline a landing aircraft is still
/// established.
pub const ESTABLISHED_CONE: i64 = 5_000;

/// Fifty feet: the altitude at or under which a landing aircraft touches
/// down.
pub const TOUCHDOWN_ALTITUDE: i64 = 50_000;

/// A thousand feet: the altitude under which a departure is taking off.
pub const TAKEOFF_CEILING: i64 = 1_000_000;

impl AircraftView {
    /// A taxiing aircraft that has reached the node `node` of its route,
    /// with `rest` still before it. To park, it parks there and stands. To
    /// take off from a runway, it is told to. To line up, it stops. To hold
    /// short, it stops and holds. Else it goes on.
    pub open spec fn arrived_at(
        self,
        node: Node<Point>,
        rest: Seq<Node<Point>>,
        state: TaxiingState,
    ) -> Outcome {
        let there = AircraftView {
            state: AircraftStateView::Taxiing { current: node, waypoints: rest, state },
            ..self
        };
        let standing = AircraftView { speed: 0, ..there.with_target_speed(0) };
        match node.behavior {
            NodeBehavior::Park => Outcome::silent(
                AircraftView { state: AircraftStateView::Parked { at: node }, ..standing },
            ),
            NodeBehavior::Takeoff => if node.kind == NodeKind::Runway {
                Outcome { aircraft: there, emitted: seq![EventKindView::Takeoff(node.name)] }
            } else {
                Outcome::silent(there)
            },
            NodeBehavior::LineUp => Outcome::silent(standing),
            NodeBehavior::HoldShort => Outcome::silent(
                AircraftView {
                    state: AircraftStateView::Taxiing {
                        current: node,
                        waypoints: rest,
                        state: TaxiingState::Holding,
                    },
                    ..standing
                },
            ),
            NodeBehavior::GoTo => Outcome::silent(there),
        }
    }

    /// What a tick does to an aircraft that taxis. Held or stopped, it
    /// stands. It steers for the next node of its route, the last of its
    /// waypoints, and once within reach of it has arrived there.
    #[verifier::opaque]
    pub open spec fn taxiing_updated(self) -> Outcome {
        match self.state {
            AircraftStateView::Taxiing { current, waypoints, state } => {
                let halted = AircraftView {
                    speed: if state == TaxiingState::Holding || state == TaxiingState::Stopped {
                        0
                    } else {
                        self.speed
                    },
                    ..self
                };
                if waypoints.len() == 0 {
                    Outcome::silent(halted)
                } else {
                    let next = waypoints.last();
                    let steered = if next.data != self.pos {
                        halted.with_target_heading(bearing_between(self.pos, next.data) as i64)
                    } else {
                        halted
                    };
                    if distance_squared_of(self.pos, next.data) <= ARRIVAL_RADIUS_SQUARED {
                        steered.arrived_at(next, waypoints.drop_last(), state)
                    } else {
                        Outcome::silent(steered)
                    }
                }
            },
            _ => Outcome::unchanged(self),
        }
    }
}

/// The altitude of the descent path at a distance from the runway: a slope
/// of 524 in ten thousand, three degrees; no more than the altitude limit.
pub open spec fn glide_altitude(distance_squared: int) -> int {
    let altitude = (root_of(distance_squared) * 524) / 10_000;
    if altitude > ALTITUDE_LIMIT {
        ALTITUDE_LIMIT as int
    } else {
        altitude
    }
}

/// Whether a point lies past the start of a runway, seen along the runway.
pub open spec fn past_threshold(pos: Point, runway: crate::world::Runway) -> bool {
    pos == runway.start || magnitude(
        turn_between(runway.heading as int, bearing_between(runway.start, pos)),
    ) < 90_000
}

impl AircraftView {
    /// What a tick does to an aircraft that lands. On approach, with the
    /// start of the runway within the cone round the runway heading before
    /// it, it is established. Established, it aims for the runway heading
    /// and for the altitude of the descent path; and once it is low enough
    /// and past the start of the runway, it touches down and is told so.
    #[verifier::opaque]
    pub open spec fn landing_updated(self) -> Outcome {
        match self.state {
            AircraftStateView::Landing { runway, state } => {
                let inbound = if self.pos == runway.start {
                    runway.heading as int
                } else {
                    bearing_between(self.pos, runway.start)
                };
                let captured = if state == LandingState::Approach && magnitude(
                    turn_between(runway.heading as int, inbound),
                ) <= ESTABLISHED_CONE {
                    LandingState::Established
                } else {
                    state
                };
                if captured == LandingState::Established {
                    let guided = AircraftView {
                        target: AircraftTargets {
                            heading: runway.heading,
                            altitude: glide_altitude(
                                distance_squared_of(self.pos, runway.start),
                            ) as i64,
                            ..self.target
                        },
                        ..self
                    };
                    if self.altitude <= TOUCHDOWN_ALTITUDE && past_threshold(self.pos, runway) {
                        Outcome {
                            aircraft: AircraftView {
                                state: AircraftStateView::Landing {
                                    runway,
                                    state: LandingState::Touchdown,
                                },
                                ..guided
                            },
                            emitted: seq![EventKindView::Touchdown],
                        }
                    } else {
                        Outcome::silent(
                            AircraftView {
                                state: AircraftStateView::Landing { runway, state: captured },
                                ..guided
                            },
                        )
                    }
                } else {
                    Outcome::unchanged(self)
                }
            },
            _ => Outcome::unchanged(self),
        }
    }
}

/// A target under the limit of a waypoint: set to a fixed value, raised to a
/// floor or lowered to a ceiling; the value held within `cap`.
pub open spec fn limited(target: i64, limit: VORLimit, cap: i64) -> i64 {
    match limit {
        VORLimit::Unlimited => target,
        VORLimit::At(v) => held(v, cap),
        VORLimit::AtOrAbove(v) => if target < v {
            held(v, cap)
        } else {
            target
        },
        VORLimit::AtOrBelow(v) => if target > v {
            held(v, cap)
        } else {
            target
        },
    }
}

/// What a waypoint asks of the aircraft that crosses it, as events.
pub open spec fn action_events(actions: crate::wayfinder::VORActions) -> Seq<EventKindView> {
    (match actions.speed_at_or_above {
        Some(v) => seq![EventKindView::SpeedAtOrAbove(v)],
        None => Seq::empty(),
    }) + (match actions.altitude_at_or_above {
        Some(v) => seq![EventKindView::AltitudeAtOrAbove(v)],
        None => Seq::empty(),
    }) + (match actions.frequency {
        Some(v) => seq![EventKindView::Frequency(v)],
        None => Seq::empty(),
    })
}

impl AircraftView {
    /// What a tick does to an aircraft that flies and follows its plan with
    /// a waypoint before it. It steers for the waypoint, off by its
    /// side-step, within the limits of the waypoint; and once within reach
    /// of the waypoint it is sent what the waypoint asks and goes on to the
    /// next.
    #[verifier::opaque]
    pub open spec fn flying_updated(self) -> Outcome {
        if self.state is Flying && self.flight_plan.follow && !self.flight_plan.at_end() {
            let waypoint = self.flight_plan.waypoints[self.flight_plan.waypoint_index];
            let steered = AircraftView {
                target: AircraftTargets {
                    heading: if waypoint.data.pos == self.pos {
                        self.target.heading
                    } else {
                        normalized(
                            bearing_between(self.pos, waypoint.data.pos)
                                + self.flight_plan.course_offset,
                        ) as i64
                    },
                    altitude: limited(
                        self.target.altitude,
                        waypoint.data.limits.altitude,
                        ALTITUDE_LIMIT,
                    ),
                    speed: limited(self.target.speed, waypoint.data.limits.speed, SPEED_LIMIT),
                },
                ..self
            };
            if distance_squared_of(self.pos, waypoint.data.pos) <= CAPTURE_RADIUS_SQUARED {
                Outcome {
                    aircraft: AircraftView {
                        flight_plan: FlightPlanView {
                            waypoint_index: self.flight_plan.waypoint_index + 1,
                            ..self.flight_plan
                        },
                        ..steered
                    },
                    emitted: action_events(waypoint.data.actions),
                }
            } else {
                Outcome::silent(steered)
            }
        } else {
            Outcome::unchanged(self)
        }
    }

    /// The segment that an aircraft is in, by how it moves, where it is and
    /// which segment it was in. Parked, it stays dormant, boarding or
    /// parked, and is parked from any other segment. Taxiing, it taxis in
    /// after a flight and out otherwise. Landing, it lands. Flying, it
    /// takes off under the takeoff ceiling and departs above it when it
    /// comes from the ground; it goes on departing in the airspace of its
    /// origin; in the airspace of its destination it arrives and then is on
    /// approach; elsewhere it arrives with at most one waypoint before it,
    /// climbs under its planned altitude and cruises at it.
    pub open spec fn segment_now(self) -> FlightSegment {
        match self.state {
            AircraftStateView::Parked { .. } => match self.segment {
                FlightSegment::Dormant => FlightSegment::Dormant,
                FlightSegment::Boarding => FlightSegment::Boarding,
                _ => FlightSegment::Parked,
            },
            AircraftStateView::Taxiing { .. } => if self.segment.is_in_air() || self.segment
                == FlightSegment::TaxiArr {
                FlightSegment::TaxiArr
            } else {
                FlightSegment::TaxiDep
            },
            AircraftStateView::Landing { .. } => FlightSegment::Landing,
            AircraftStateView::Flying => if !self.segment.is_in_air() {
                if self.altitude < TAKEOFF_CEILING {
                    FlightSegment::Takeoff
                } else {
                    FlightSegment::Departure
                }
            } else if self.segment == FlightSegment::Departure && self.airspace == Some(
                self.flight_plan.departing,
            ) {
                FlightSegment::Departure
            } else if self.airspace == Some(self.flight_plan.arriving) {
                if self.segment == FlightSegment::Arrival || self.segment
                    == FlightSegment::Approach {
                    FlightSegment::Approach
                } else {
                    FlightSegment::Arrival
                }
            } else if self.flight_plan.waypoint_index + 1 >= self.flight_plan.waypoints.len() {
                FlightSegment::Arrival
            } else if self.altitude < self.flight_plan.altitude {
                FlightSegment::Climb
            } else {
                FlightSegment::Cruise
            },
        }
    }

    /// What a tick does to the segment of an aircraft: where the segment
    /// that it is in is another than the one it has, it takes that one and
    /// the change is sent out; a flight that takes off begins at this tick.
    #[verifier::opaque]
    pub open spec fn segment_updated(self, tick: usize) -> Outcome {
        let next = self.segment_now();
        if next == self.segment {
            Outcome::unchanged(self)
        } else {
            Outcome {
                aircraft: AircraftView {
                    segment: next,
                    flight_time: if next == FlightSegment::Takeoff {
                        Some(tick)
                    } else {
                        self.flight_time
                    },
                    ..self
                },
                emitted: seq![EventKindView::Segment(self.segment, next)],
            }
        }
    }
}

/// No aircraft that is parked is, after its segment is updated, in a
/// segment of taxiing out, taking off, flying, approaching or landing.
pub proof fn lemma_parked_segment(a: AircraftView, tick: usize)
    requires
        a.state is Parked,
    ensures
        a.segment_updated(tick).aircraft.state is Parked,
        a.segment_updated(tick).aircraft.segment.allows_parked(),
{
    reveal(AircraftView::segment_updated);
}

fn hold_within(value: i64, cap: i64) -> (r: i64)
    requires
        0 <= cap,
    ensures
        r == held(value, cap),
        0 <= r <= cap,
{
    if value < 0 {
        0
    } else if value > cap {
        cap
    } else {
        value
    }
}

fn limit_target(target: i64, limit: VORLimit, cap: i64) -> (r: i64)
    requires
        0 <= target <= cap,
    ensures
        r == limited(target, limit, cap),
        0 <= r <= cap,
{
    match limit {
        VORLimit::Unlimited => target,
        VORLimit::At(v) => hold_within(v, cap),
        VORLimit::AtOrAbove(v) => if target < v {
            hold_within(v, cap)
        } else {
            target
        },
        VORLimit::AtOrBelow(v) => if target > v {
            hold_within(v, cap)
        } else {
            target
        },
    }
}

impl Aircraft {
    /// Follows the taxi route for one tick.
    pub fn update_taxiing(&mut self, events: &mut Vec<Event>)
        requires
            old(self)@.wf(),
        ensures
            final(self)@ == old(self)@.taxiing_updated().aircraft,
            events_view(final(events)@) == events_view(old(events)@) + addressed(
                old(self).id,
                old(self)@.taxiing_updated().emitted,
            ),
            final(self)@.wf(),
            final(self)@.id == old(self)@.id,
    {
        reveal(AircraftView::taxiing_updated);
        let id = self.id;
        let pos = self.pos;
        let ghost a = self@;
        let mut reached: Option<Node<Point>> = None;
        let mut steer: Option<i64> = None;
        let mut halt = false;
        match &mut self.state {
            AircraftState::Taxiing { current, waypoints, state } => {
                halt = *state == TaxiingState::Holding || *state == TaxiingState::Stopped;
                if waypoints.len() > 0 {
                    let next = waypoints[waypoints.len() - 1];
                    if next.data != pos {
                        steer = Some(angle_between_points(pos, next.data));
                    }
                    if distance_squared(pos, next.data) <= ARRIVAL_RADIUS_SQUARED {
                        waypoints.pop();
                        *current = next;
                        if next.behavior == NodeBehavior::HoldShort {
                            *state = TaxiingState::Holding;
                        }
                        reached = Some(next);
                    }
                }
            },
            _ => {},
        }
        if halt {
            self.speed = 0;
        }
        if let Some(heading) = steer {
            self.target.heading = heading;
        }
        let mut told = false;
        if let Some(node) = reached {
            match node.behavior {
                NodeBehavior::Park => {
                    self.speed = 0;
                    self.target.speed = 0;
                    self.state = AircraftState::Parked { at: node };
                },
                NodeBehavior::Takeoff => {
                    if node.kind == NodeKind::Runway {
                        emit(events, id, EventKind::Takeoff(node.name));
                        told = true;
                    }
                },
                NodeBehavior::LineUp => {
                    self.speed = 0;
                    self.target.speed = 0;
                },
                NodeBehavior::HoldShort => {
                    self.speed = 0;
                    self.target.speed = 0;
                },
                NodeBehavior::GoTo => {},
            }
        }
        if !told {
            assert(events_view(events@) =~= events_view(old(events)@) + addressed(id, Seq::empty()));
        }
    }

    /// Follows the landing for one tick.
    pub fn update_landing(&mut self, events: &mut Vec<Event>)
        requires
            old(self)@.wf(),
        ensures
            final(self)@ == old(self)@.landing_updated().aircraft,
            events_view(final(events)@) == events_view(old(events)@) + addressed(
                old(self).id,
                old(self)@.landing_updated().emitted,
            ),
            final(self)@.wf(),
            final(self)@.id == old(self)@.id,
    {
        reveal(AircraftView::landing_updated);
        let id = self.id;
        let pos = self.pos;
        let altitude = self.altitude;
        let mut guide: Option<(i64, i64)> = None;
        let mut touchdown = false;
        match &mut self.state {
            AircraftState::Landing { runway, state } => {
                let inbound = if pos == runway.start {
                    runway.heading
                } else {
                    angle_between_points(pos, runway.start)
                };
                if *state == LandingState::Approach && abs_i64(
                    delta_angle(runway.heading, inbound),
                ) <= ESTABLISHED_CONE {
                    *state = LandingState::Established;
                }
                if *state == LandingState::Established {
                    let distance = integer_sqrt(distance_squared(pos, runway.start));
                    let slope: i128 = (distance as i128 * 524) / 10_000;
                    let glide: i64 = if slope > ALTITUDE_LIMIT as i128 {
                        ALTITUDE_LIMIT
                    } else {
                        slope as i64
                    };
                    guide = Some((runway.heading, glide));
                    let past = pos == runway.start || abs_i64(
                        delta_angle(runway.heading, angle_between_points(runway.start, pos)),
                    ) < 90_000;
                    if altitude <= TOUCHDOWN_ALTITUDE && past {
                        *state = LandingState::Touchdown;
                        touchdown = true;
                    }
                }
            },
            _ => {},
        }
        if let Some((heading, glide)) = guide {
            self.target.heading = heading;
            self.target.altitude = glide;
        }
        if touchdown {
            emit(events, id, EventKind::Touchdown);
        } else {
            assert(events_view(events@) =~= events_view(old(events)@) + addressed(id, Seq::empty()));
        }
    }

    /// Follows the flight plan for one tick.
    pub fn update_flying(&mut self, events: &mut Vec<Event>)
        requires
            old(self)@.wf(),
        ensures
            final(self)@ == old(self)@.flying_updated().aircraft,
            events_view(final(events)@) == events_view(old(events)@) + addressed(
                old(self).id,
                old(self)@.flying_updated().emitted,
            ),
            final(self)@.wf(),
            final(self)@.id == old(self)@.id,
    {
        reveal(AircraftView::flying_updated);
        let id = self.id;
        let ghost start = events_view(events@);
        let flying = match &self.state {
            AircraftState::Flying => true,
            _ => false,
        };
        if !(flying && self.flight_plan.follow && !self.flight_plan.at_end()) {
            assert(start =~= start + addressed(id, Seq::empty()));
            return;
        }
        let waypoint = self.flight_plan.waypoints[self.flight_plan.waypoint_index];
        assert(waypoint == self@.flight_plan.waypoints[self@.flight_plan.waypoint_index]);
        assert(waypoint.data.pos.in_range());
        if waypoint.data.pos != self.pos {
            let course = angle_between_points(self.pos, waypoint.data.pos);
            let offset = normalize_angle(self.flight_plan.course_offset);
            proof {
                vstd::arithmetic::div_mod::lemma_add_mod_noop(
                    course as int,
                    self.flight_plan.course_offset as int,
                    360_000,
                );
                vstd::arithmetic::div_mod::lemma_add_mod_noop(course as int, offset as int, 360_000);
                vstd::arithmetic::div_mod::lemma_mod_twice(
                    self.flight_plan.course_offset as int,
                    360_000,
                );
            }
            self.target.heading = normalize_angle(course + offset);
        }
        self.target.altitude = limit_target(
            self.target.altitude,
            waypoint.data.limits.altitude,
            ALTITUDE_LIMIT,
        );
        self.target.speed = limit_target(
            self.target.speed,
            waypoint.data.limits.speed,
            SPEED_LIMIT,
        );
        if distance_squared(self.pos, waypoint.data.pos) <= CAPTURE_RADIUS_SQUARED {
            assert(self.flight_plan.waypoint_index < self.flight_plan.waypoints.len());
            self.flight_plan.waypoint_index = self.flight_plan.waypoint_index + 1;
            let ghost mut sent: Seq<EventKindView> = Seq::empty();
            assert(start =~= start + addressed(id, sent));
            if let Some(v) = waypoint.data.actions.speed_at_or_above {
                emit(events, id, EventKind::SpeedAtOrAbove(v));
                proof {
                    sent = sent + seq![EventKindView::SpeedAtOrAbove(v)];
                    assert(events_view(events@) =~= start + addressed(id, sent));
                }
            }
            if let Some(v) = waypoint.data.actions.altitude_at_or_above {
                emit(events, id, EventKind::AltitudeAtOrAbove(v));
                proof {
                    sent = sent + seq![EventKindView::AltitudeAtOrAbove(v)];
                    assert(events_view(events@) =~= start + addressed(id, sent));
                }
            }
            if let Some(v) = waypoint.data.actions.frequency {
                emit(events, id, EventKind::Frequency(v));
                proof {
                    sent = sent + seq![EventKindView::Frequency(v)];
                    assert(events_view(events@) =~= start + addressed(id, sent));
                }
            }
            assert(sent =~= action_events(waypoint.data.actions));
        } else {
            assert(start =~= start + addressed(id, Seq::empty()));
        }
    }

    /// Works out the segment that the aircraft is in.
    pub fn segment_now(&self) -> (r: FlightSegment)
        requires
            self@.wf(),
        ensures
            r == self@.segment_now(),
    {
        match &self.state {
            AircraftState::Parked { .. } => match self.segment {
                FlightSegment::Dormant => FlightSegment::Dormant,
                FlightSegment::Boarding => FlightSegment::Boarding,
                _ => FlightSegment::Parked,
            },
            AircraftState::Taxiing { .. } => if self.segment.in_air() || self.segment
                == FlightSegment::TaxiArr {
                FlightSegment::TaxiArr
            } else {
                FlightSegment::TaxiDep
            },
            AircraftState::Landing { .. } => FlightSegment::Landing,
            AircraftState::Flying => {
                let at_origin = match self.airspace {
                    Some(id) => id == self.flight_plan.departing,
                    None => false,
                };
                let at_destination = match self.airspace {
                    Some(id) => id == self.flight_plan.arriving,
                    None => false,
                };
                if !self.segment.in_air() {
                    if self.altitude < TAKEOFF_CEILING {
                        FlightSegment::Takeoff
                    } else {
                        FlightSegment::Departure
                    }
                } else if self.segment == FlightSegment::Departure && at_origin {
                    FlightSegment::Departure
                } else if at_destination {
                    if self.segment == FlightSegment::Arrival || self.segment
                        == FlightSegment::Approach {
                        FlightSegment::Approach
                    } else {
                        FlightSegment::Arrival
                    }
                } else if self.flight_plan.waypoints.len() - self.flight_plan.waypoint_index <= 1 {
                    FlightSegment::Arrival
                } else if self.altitude < self.flight_plan.altitude {
                    FlightSegment::Climb
                } else {
                    FlightSegment::Cruise
                }
            },
        }
    }

    /// Puts the aircraft into the segment that it is in and sends the change
    /// out.
    pub fn update_segment(&mut self, events: &mut Vec<Event>, tick: usize)
        requires
            old(self)@.wf(),
        ensures
            final(self)@ == old(self)@.segment_updated(tick).aircraft,
            events_view(final(events)@) == events_view(old(events)@) + addressed(
                old(self).id,
                old(self)@.segment_updated(tick).emitted,
            ),
            final(self)@.wf(),
            final(self)@.id == old(self)@.id,
    {
        reveal(AircraftView::segment_updated);
        let next = self.segment_now();
        if next == self.segment {
            assert(events_view(events@) =~= events_view(old(events)@) + addressed(
                self.id,
                Seq::empty(),
            ));
            return;
        }
        let prev = self.segment;
        self.segment = next;
        if next == FlightSegment::Takeoff {
            self.flight_time = Some(tick);
        }
        emit(events, self.id, EventKind::Segment(prev, next));
    }
}

} // verus!
