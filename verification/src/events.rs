//! The events that drive an aircraft and what each of them does to it.

use vstd::prelude::*;

use crate::aircraft::{
    Aircraft, AircraftState, AircraftStateView, AircraftTargets, AircraftView, FlightSegment,
    LandingState, TaxiingState,
};
use crate::command::{CommandReply, CommandWithFreq, CommandWithFreqView, Task};
use crate::engine::{addressed, events_view, Event};
use crate::chance::{draw_fits, sample_index};
use crate::geometry::{
    angle_between_points, bearing_between, compass_point_of, heading_to_direction,
    normalize_angle, normalized,
};
pub use crate::navigation::resume_own_navigation;
use crate::search::{first_index, lemma_first_index_absent, lemma_first_index_found};
pub use crate::taxi::handle_taxi_event;
use crate::world::Airport;
use crate::names::Name;
use crate::pathfinder::{Node, NodeBehavior, NodeKind};
use crate::wayfinder::{FlightPlanView, VORData};
use crate::world::{World, ALTITUDE_LIMIT, SPEED_LIMIT};

verus! {

/// What can happen to an aircraft.
#[derive(Clone, Debug, PartialEq, Eq)]
pub enum EventKind {
    // Any
    Speed(i64),
    SpeedAtOrBelow(i64),
    SpeedAtOrAbove(i64),
    Frequency(i64),
    NamedFrequency(Name),
    // Flying
    Heading(i64),
    Altitude(i64),
    AltitudeAtOrBelow(i64),
    AltitudeAtOrAbove(i64),
    ResumeOwnNavigation { diversion: bool },
    Direct(Name),
    AmendAndFollow(Vec<Node<VORData>>),
    // Transitions
    Land(Name),
    GoAround,
    Touchdown,
    Takeoff(Name),
    // Taxiing
    Taxi(Vec<Node<()>>),
    TaxiContinue,
    TaxiHold { and_state: bool },
    LineUp(Name),
    // Requests
    Ident,
    // Callouts
    Callout(CommandWithFreq),
    CalloutTARA,
    // State
    Segment(FlightSegment, FlightSegment),
    // External
    Delete,
}

/// The mathematical value of an `EventKind`.
pub enum EventKindView {
    Speed(i64),
    SpeedAtOrBelow(i64),
    SpeedAtOrAbove(i64),
    Frequency(i64),
    NamedFrequency(Name),
    Heading(i64),
    Altitude(i64),
    AltitudeAtOrBelow(i64),
    AltitudeAtOrAbove(i64),
    ResumeOwnNavigation { diversion: bool },
    Direct(Name),
    AmendAndFollow(Seq<Node<VORData>>),
    Land(Name),
    GoAround,
    Touchdown,
    Takeoff(Name),
    Taxi(Seq<Node<()>>),
    TaxiContinue,
    TaxiHold { and_state: bool },
    LineUp(Name),
    Ident,
    Callout(CommandWithFreqView),
    CalloutTARA,
    Segment(FlightSegment, FlightSegment),
    Delete,
}

impl View for EventKind {
    type V = EventKindView;

    open spec fn view(&self) -> EventKindView {
        match *self {
            EventKind::Speed(x) => EventKindView::Speed(x),
            EventKind::SpeedAtOrBelow(x) => EventKindView::SpeedAtOrBelow(x),
            EventKind::SpeedAtOrAbove(x) => EventKindView::SpeedAtOrAbove(x),
            EventKind::Frequency(x) => EventKindView::Frequency(x),
            EventKind::NamedFrequency(x) => EventKindView::NamedFrequency(x),
            EventKind::Heading(x) => EventKindView::Heading(x),
            EventKind::Altitude(x) => EventKindView::Altitude(x),
            EventKind::AltitudeAtOrBelow(x) => EventKindView::AltitudeAtOrBelow(x),
            EventKind::AltitudeAtOrAbove(x) => EventKindView::AltitudeAtOrAbove(x),
            EventKind::ResumeOwnNavigation { diversion } => EventKindView::ResumeOwnNavigation {
                diversion,
            },
            EventKind::Direct(x) => EventKindView::Direct(x),
            EventKind::AmendAndFollow(x) => EventKindView::AmendAndFollow(x@),
            EventKind::Land(x) => EventKindView::Land(x),
            EventKind::GoAround => EventKindView::GoAround,
            EventKind::Touchdown => EventKindView::Touchdown,
            EventKind::Takeoff(x) => EventKindView::Takeoff(x),
            EventKind::Taxi(x) => EventKindView::Taxi(x@),
            EventKind::TaxiContinue => EventKindView::TaxiContinue,
            EventKind::TaxiHold { and_state } => EventKindView::TaxiHold { and_state },
            EventKind::LineUp(x) => EventKindView::LineUp(x),
            EventKind::Ident => EventKindView::Ident,
            EventKind::Callout(x) => EventKindView::Callout(x@),
            EventKind::CalloutTARA => EventKindView::CalloutTARA,
            EventKind::Segment(a, b) => EventKindView::Segment(a, b),
            EventKind::Delete => EventKindView::Delete,
        }
    }
}

impl From<Task> for EventKind {
    fn from(value: Task) -> (r: EventKind) {
        match value {
            Task::Altitude(x) => EventKind::Altitude(x),
            Task::Direct(s) => EventKind::Direct(s),
            Task::Frequency(x) => EventKind::Frequency(x),
            Task::GoAround => EventKind::GoAround,
            Task::Heading(x) => EventKind::Heading(x),
            Task::Ident => EventKind::Ident,
            Task::Land(x) => EventKind::Land(x),
            Task::NamedFrequency(x) => EventKind::NamedFrequency(x),
            Task::ResumeOwnNavigation => EventKind::ResumeOwnNavigation { diversion: false },
            Task::Speed(x) => EventKind::Speed(x),
            Task::Takeoff(x) => EventKind::Takeoff(x),
            Task::Taxi(x) => EventKind::Taxi(x),
            Task::TaxiContinue => EventKind::TaxiContinue,
            Task::TaxiHold => EventKind::TaxiHold { and_state: true },
            Task::LineUp(x) => EventKind::LineUp(x),
            Task::Delete => EventKind::Delete,
        }
    }
}

impl vstd::std_specs::convert::FromSpecImpl<Task> for EventKind {
    open spec fn obeys_from_spec() -> bool {
        true
    }

    open spec fn from_spec(value: Task) -> EventKind {
        match value {
            Task::Altitude(x) => EventKind::Altitude(x),
            Task::Direct(s) => EventKind::Direct(s),
            Task::Frequency(x) => EventKind::Frequency(x),
            Task::GoAround => EventKind::GoAround,
            Task::Heading(x) => EventKind::Heading(x),
            Task::Ident => EventKind::Ident,
            Task::Land(x) => EventKind::Land(x),
            Task::NamedFrequency(x) => EventKind::NamedFrequency(x),
            Task::ResumeOwnNavigation => EventKind::ResumeOwnNavigation { diversion: false },
            Task::Speed(x) => EventKind::Speed(x),
            Task::Takeoff(x) => EventKind::Takeoff(x),
            Task::Taxi(x) => EventKind::Taxi(x),
            Task::TaxiContinue => EventKind::TaxiContinue,
            Task::TaxiHold => EventKind::TaxiHold { and_state: true },
            Task::LineUp(x) => EventKind::LineUp(x),
            Task::Delete => EventKind::Delete,
        }
    }
}

/// An event addressed to one aircraft.
#[derive(Clone, Debug, PartialEq, Eq)]
pub struct AircraftEvent {
    pub id: Name,
    pub kind: EventKind,
}

/// The mathematical value of an `AircraftEvent`.
pub struct AircraftEventView {
    pub id: Name,
    pub kind: EventKindView,
}

impl View for AircraftEvent {
    type V = AircraftEventView;

    open spec fn view(&self) -> AircraftEventView {
        AircraftEventView { id: self.id, kind: self.kind@ }
    }
}

impl AircraftEvent {
    /// An event of the given kind for the named aircraft.
    pub fn new(id: Name, kind: EventKind) -> (r: AircraftEvent)
        ensures
            r == (AircraftEvent { id, kind }),
    {
        AircraftEvent { id, kind }
    }
}

/// Appends an event for one aircraft to the outbound list.
pub fn emit(events: &mut Vec<Event>, id: Name, kind: EventKind)
    ensures
        events_view(final(events)@) == events_view(old(events)@) + addressed(id, seq![kind@]),
{
    events.push(Event::Aircraft(AircraftEvent::new(id, kind)));
    assert(events_view(events@) =~= events_view(old(events)@) + addressed(id, seq![kind@]));
}

/// The aircraft after touchdown on the runway that it lands on: on the
/// ground, aligned with the runway, rolling out under its own authority.
pub open spec fn touched_down(a: AircraftView) -> AircraftView
    recommends
        a.state is Landing,
{
    let runway = a.state->runway;
    AircraftView {
        altitude: 0,
        heading: normalized(runway.heading as int) as i64,
        target: AircraftTargets {
            altitude: 0,
            heading: normalized(runway.heading as int) as i64,
            speed: 0,
        },
        state: AircraftStateView::Taxiing {
            current: Node {
                name: runway.id,
                kind: NodeKind::Runway,
                behavior: NodeBehavior::GoTo,
                data: a.pos,
            },
            waypoints: Seq::empty(),
            state: TaxiingState::Override,
        },
        ..a
    }
}

/// Puts a landing aircraft on the ground: altitude zero, heading that of the
/// runway, speed target zero, taxiing at the runway with traffic stops
/// overridden.
pub fn handle_touchdown_event(aircraft: &mut Aircraft)
    requires
        old(aircraft)@.state is Landing,
    ensures
        final(aircraft)@ == touched_down(old(aircraft)@),
        final(aircraft)@.state matches AircraftStateView::Taxiing { state, .. } && state
            == TaxiingState::Override,
{
    let (id, heading) = match &aircraft.state {
        AircraftState::Landing { runway, .. } => (runway.id, normalize_angle(runway.heading)),
        _ => (aircraft.id, aircraft.heading),
    };
    aircraft.target.altitude = 0;
    aircraft.altitude = 0;
    aircraft.target.heading = heading;
    aircraft.heading = heading;
    aircraft.target.speed = 0;
    aircraft.state = AircraftState::Taxiing {
        current: Node {
            name: id,
            kind: NodeKind::Runway,
            behavior: NodeBehavior::GoTo,
            data: aircraft.pos,
        },
        waypoints: Vec::new(),
        state: TaxiingState::Override,
    };
}

/// What an event does: the aircraft after it and the events that it sends out
/// for that aircraft, in order.
pub struct Outcome {
    pub aircraft: AircraftView,
    pub emitted: Seq<EventKindView>,
}

impl Outcome {
    /// The aircraft as it is and nothing sent.
    pub open spec fn unchanged(a: AircraftView) -> Outcome {
        Outcome { aircraft: a, emitted: Seq::empty() }
    }

    /// The aircraft changed and nothing sent.
    pub open spec fn silent(a: AircraftView) -> Outcome {
        Outcome { aircraft: a, emitted: Seq::empty() }
    }
}

/// A value held between zero and a limit.
pub open spec fn held(value: i64, limit: i64) -> i64 {
    if value < 0 {
        0
    } else if value > limit {
        limit
    } else {
        value
    }
}

fn hold(value: i64, limit: i64) -> (r: i64)
    requires
        0 <= limit,
    ensures
        r == held(value, limit),
        0 <= r <= limit,
{
    if value < 0 {
        0
    } else if value > limit {
        limit
    } else {
        value
    }
}

/// Twenty knots: the speed of an aircraft that taxis.
pub const TAXI_SPEED: i64 = 20_000;

/// The floor for the altitude after a go-around: three thousand feet.
pub const GO_AROUND_ALTITUDE: i64 = 3_000_000;

/// The floor for the speed after a go-around: two hundred and fifty knots.
pub const GO_AROUND_SPEED: i64 = 250_000;

impl AircraftView {
    /// The aircraft with another speed target.
    pub open spec fn with_target_speed(self, speed: i64) -> AircraftView {
        AircraftView { target: AircraftTargets { speed, ..self.target }, ..self }
    }

    /// The aircraft with another altitude target.
    pub open spec fn with_target_altitude(self, altitude: i64) -> AircraftView {
        AircraftView { target: AircraftTargets { altitude, ..self.target }, ..self }
    }

    /// The aircraft with another heading target.
    pub open spec fn with_target_heading(self, heading: i64) -> AircraftView {
        AircraftView { target: AircraftTargets { heading, ..self.target }, ..self }
    }

    /// The aircraft flying by hand: not following its plan, no side-step.
    pub open spec fn off_plan(self) -> AircraftView {
        AircraftView {
            flight_plan: FlightPlanView { follow: false, course_offset: 0, ..self.flight_plan },
            ..self
        }
    }

    /// `Speed`: the speed target is the value, held within the limits.
    pub open spec fn speed_set(self, speed: i64) -> AircraftView {
        self.with_target_speed(held(speed, SPEED_LIMIT))
    }

    /// `SpeedAtOrBelow`: the speed target comes down to the value.
    pub open spec fn speed_capped(self, speed: i64) -> AircraftView {
        if self.target.speed > speed {
            self.speed_set(speed)
        } else {
            self
        }
    }

    /// `SpeedAtOrAbove`: the speed target comes up to the value.
    pub open spec fn speed_raised(self, speed: i64) -> AircraftView {
        if self.target.speed < speed {
            self.speed_set(speed)
        } else {
            self
        }
    }

    /// `Altitude`: the altitude target is the value, held within the limits.
    pub open spec fn altitude_set(self, altitude: i64) -> AircraftView {
        self.with_target_altitude(held(altitude, ALTITUDE_LIMIT))
    }

    /// `AltitudeAtOrBelow`: the altitude target comes down to the value.
    pub open spec fn altitude_capped(self, altitude: i64) -> AircraftView {
        if self.target.altitude > altitude {
            self.altitude_set(altitude)
        } else {
            self
        }
    }

    /// `AltitudeAtOrAbove`: the altitude target comes up to the value.
    pub open spec fn altitude_raised(self, altitude: i64) -> AircraftView {
        if self.target.altitude < altitude {
            self.altitude_set(altitude)
        } else {
            self
        }
    }

    /// `Heading`: an aircraft that flies or lands aims for the heading, no
    /// longer follows its plan and loses its side-step; on the ground
    /// nothing happens.
    pub open spec fn heading_set(self, heading: i64) -> AircraftView {
        if self.state is Flying || self.state is Landing {
            self.with_target_heading(normalized(heading as int) as i64).off_plan()
        } else {
            self
        }
    }

    /// `NamedFrequency`: the radio is tuned to the frequency that the name
    /// stands for at the airport whose airspace the aircraft is in; where
    /// there is no such airport or no such name, nothing happens.
    pub open spec fn frequency_named(self, name: Name, world: &World) -> AircraftView {
        match world.airspace_index(self.airspace) {
            Some(i) => match world.airports@[i].frequencies.named(name) {
                Some(frequency) => AircraftView { frequency, ..self },
                None => self,
            },
            None => self,
        }
    }

    /// `GoAround`: a landing aircraft flies again, by hand, its targets what
    /// it has now, and is told to climb and to speed up.
    pub open spec fn gone_around(self) -> Outcome {
        if self.state is Landing {
            Outcome {
                aircraft: AircraftView {
                    state: AircraftStateView::Flying,
                    target: AircraftTargets {
                        heading: self.heading,
                        altitude: self.altitude,
                        speed: self.speed,
                    },
                    ..self.off_plan()
                },
                emitted: seq![
                    EventKindView::AltitudeAtOrAbove(GO_AROUND_ALTITUDE),
                    EventKindView::SpeedAtOrAbove(GO_AROUND_SPEED),
                ],
            }
        } else {
            Outcome::unchanged(self)
        }
    }

    /// `TaxiContinue`: a taxiing aircraft aims for taxi speed; one that was
    /// held is armed again, one that was stopped for traffic overrides.
    pub open spec fn taxi_continued(self) -> AircraftView {
        match self.state {
            AircraftStateView::Taxiing { current, waypoints, state } => AircraftView {
                state: AircraftStateView::Taxiing {
                    current,
                    waypoints,
                    state: match state {
                        TaxiingState::Holding => TaxiingState::Armed,
                        TaxiingState::Stopped => TaxiingState::Override,
                        other => other,
                    },
                },
                ..self.with_target_speed(TAXI_SPEED)
            },
            _ => self,
        }
    }

    /// `TaxiHold`: an aircraft on the ground stops at once; a taxiing one is
    /// held where `and_state` says so.
    pub open spec fn taxi_held(self, and_state: bool) -> AircraftView {
        match self.state {
            AircraftStateView::Taxiing { current, waypoints, state } => AircraftView {
                speed: 0,
                state: AircraftStateView::Taxiing {
                    current,
                    waypoints,
                    state: if and_state {
                        TaxiingState::Holding
                    } else {
                        state
                    },
                },
                ..self.with_target_speed(0)
            },
            AircraftStateView::Parked { .. } => AircraftView {
                speed: 0,
                ..self.with_target_speed(0)
            },
            _ => self,
        }
    }

    /// The aircraft with the behaviour of the destination of its taxi route
    /// changed, where that destination is the named runway.
    pub open spec fn with_runway_behavior(self, runway: Name, behavior: NodeBehavior) -> AircraftView {
        match self.state {
            AircraftStateView::Taxiing { current, waypoints, state } => if waypoints.len() > 0
                && waypoints[0].kind == NodeKind::Runway && waypoints[0].name == runway {
                AircraftView {
                    state: AircraftStateView::Taxiing {
                        current,
                        waypoints: waypoints.update(0, Node { behavior, ..waypoints[0] }),
                        state,
                    },
                    ..self
                }
            } else {
                self
            },
            _ => self,
        }
    }

    /// Whether the taxi route of the aircraft ends at the named runway.
    pub open spec fn bound_for_runway(self, runway: Name) -> bool {
        self.state matches AircraftStateView::Taxiing { waypoints, .. } && waypoints.len() > 0
            && waypoints[0].kind == NodeKind::Runway && waypoints[0].name == runway
    }

    /// `LineUp`: a taxiing aircraft whose route ends at the named runway
    /// lines up there and is told to continue; any other is left alone.
    pub open spec fn lined_up(self, runway: Name) -> Outcome {
        if self.bound_for_runway(runway) {
            Outcome {
                aircraft: self.with_runway_behavior(runway, NodeBehavior::LineUp),
                emitted: seq![EventKindView::TaxiContinue],
            }
        } else {
            Outcome::unchanged(self)
        }
    }

    /// `Ident`: the aircraft says its name on its frequency.
    pub open spec fn identified(self) -> Outcome {
        Outcome {
            aircraft: self,
            emitted: seq![
                EventKindView::Callout(
                    CommandWithFreqView::saying(self.id, self.frequency, CommandReply::Empty),
                ),
            ],
        }
    }

    /// `CalloutTARA`: the aircraft reports that it is clear of conflict and
    /// which altitude it goes back to.
    pub open spec fn conflict_resolved(self) -> Outcome {
        Outcome {
            aircraft: self,
            emitted: seq![
                EventKindView::Callout(
                    CommandWithFreqView::saying(
                        self.id,
                        self.frequency,
                        CommandReply::TARAResolved { assigned_alt: self.target.altitude },
                    ),
                ),
            ],
        }
    }

    /// A parked aircraft that has boarded tunes to ground and reports ready
    /// for taxi at its gate, where the airport of its airspace is known.
    pub open spec fn ready_for_taxi(self, world: &World) -> Outcome {
        match self.state {
            AircraftStateView::Parked { at } => match world.airspace_index(self.airspace) {
                Some(i) => {
                    let ground = world.airports@[i].frequencies.ground;
                    Outcome {
                        aircraft: AircraftView { frequency: ground, ..self },
                        emitted: seq![
                            EventKindView::Callout(
                                CommandWithFreqView::saying(
                                    self.id,
                                    ground,
                                    CommandReply::ReadyForTaxi { gate: at.name },
                                ),
                            ),
                        ],
                    }
                },
                None => Outcome::unchanged(self),
            },
            _ => Outcome::unchanged(self),
        }
    }
}

/// Says on the aircraft's frequency that a conflict is resolved.
pub fn handle_callout_tara(aircraft: &mut Aircraft, events: &mut Vec<Event>)
    ensures
        final(aircraft)@ == old(aircraft)@,
        events_view(final(events)@) == events_view(old(events)@) + addressed(
            old(aircraft).id,
            old(aircraft)@.conflict_resolved().emitted,
        ),
{
    let command = CommandWithFreq::new(
        aircraft.id,
        aircraft.frequency,
        CommandReply::TARAResolved { assigned_alt: aircraft.target.altitude },
        Vec::new(),
    );
    assert(command@.tasks =~= Seq::empty());
    emit(events, aircraft.id, EventKind::Callout(command));
}

/// What a parked aircraft does once it has boarded.
pub fn handle_parked_transition(aircraft: &mut Aircraft, events: &mut Vec<Event>, world: &World)
    ensures
        final(aircraft)@ == old(aircraft)@.ready_for_taxi(world).aircraft,
        events_view(final(events)@) == events_view(old(events)@) + addressed(
            old(aircraft).id,
            old(aircraft)@.ready_for_taxi(world).emitted,
        ),
{
    if let AircraftState::Parked { at } = &aircraft.state {
        let gate = at.name;
        if let Some(airport) = world.airport_of(aircraft.airspace) {
            aircraft.frequency = airport.frequencies.ground;
            let command = CommandWithFreq::new(
                aircraft.id,
                aircraft.frequency,
                CommandReply::ReadyForTaxi { gate },
                Vec::new(),
            );
            assert(command@.tasks =~= Seq::empty());
            emit(events, aircraft.id, EventKind::Callout(command));
            return;
        }
    }
    assert(events_view(events@) =~= events_view(old(events)@) + addressed(
        old(aircraft).id,
        Seq::empty(),
    ));
}

impl AircraftView {
    /// `Land`: an aircraft in flight, or one that lands already, begins its
    /// approach to the named runway of the airport whose airspace it is in;
    /// where there is no such runway nothing happens.
    pub open spec fn cleared_to_land(self, runway: Name, world: &World) -> AircraftView {
        if self.state is Flying || self.state is Landing {
            match world.airspace_index(self.airspace) {
                Some(i) => match world.airports@[i].runway_named(runway) {
                    Some(found) => AircraftView {
                        state: AircraftStateView::Landing {
                            runway: found,
                            state: LandingState::Approach,
                        },
                        ..self
                    },
                    None => self,
                },
                None => self,
            }
        } else {
            self
        }
    }

    /// `Takeoff`: a taxiing aircraft that stands on the named runway takes
    /// off: it aims for its greatest speed and its planned altitude along
    /// the runway, flies, and is told to navigate. One whose route ends at
    /// that runway will take off on reaching it and is told to continue.
    /// Where the airport has no such runway nothing happens.
    pub open spec fn cleared_for_takeoff(self, runway: Name, world: &World) -> Outcome {
        match self.state {
            AircraftStateView::Taxiing { current, waypoints, state } => {
                let found = match world.airspace_index(self.airspace) {
                    Some(i) => world.airports@[i].runway_named(runway),
                    None => None,
                };
                match found {
                    Some(found) => if current.kind == NodeKind::Runway && current.name == runway {
                        Outcome {
                            aircraft: AircraftView {
                                heading: found.heading,
                                target: AircraftTargets {
                                    speed: self.minima.max_speed,
                                    altitude: self.flight_plan.altitude,
                                    heading: found.heading,
                                },
                                state: AircraftStateView::Flying,
                                ..self
                            },
                            emitted: seq![EventKindView::ResumeOwnNavigation { diversion: false }],
                        }
                    } else if waypoints.len() > 0 && waypoints[0].kind == NodeKind::Runway
                        && waypoints[0].name == runway {
                        Outcome {
                            aircraft: self.with_runway_behavior(runway, NodeBehavior::Takeoff),
                            emitted: seq![EventKindView::TaxiContinue],
                        }
                    } else {
                        Outcome::unchanged(self)
                    },
                    None => Outcome::unchanged(self),
                }
            },
            _ => Outcome::unchanged(self),
        }
    }

    /// `Direct`: the plan goes on at the first waypoint with the given name;
    /// where there is none nothing happens.
    pub open spec fn directed(self, name: Name) -> AircraftView {
        match first_index(self.flight_plan.waypoints, |w: Node<VORData>| w.name == name) {
            Some(i) => AircraftView {
                flight_plan: FlightPlanView { waypoint_index: i, ..self.flight_plan },
                ..self
            },
            None => self,
        }
    }

    /// `AmendAndFollow`: everything from the current waypoint on is replaced
    /// and the plan is followed. An amendment with a waypoint off the map is
    /// ignored.
    pub open spec fn amended(self, tail: Seq<Node<VORData>>) -> AircraftView {
        if forall|i: int| 0 <= i < tail.len() ==> (#[trigger] tail[i]).data.pos.in_range() {
            AircraftView {
                flight_plan: FlightPlanView { follow: true, ..self.flight_plan.amended(tail) },
                ..self
            }
        } else {
            self
        }
    }
}

/// The names of the airports other than `excluded`, in order.
pub open spec fn other_airports(airports: Seq<Airport>, excluded: Name) -> Seq<Name>
    decreases airports.len(),
{
    if airports.len() == 0 {
        Seq::empty()
    } else {
        let rest = other_airports(airports.drop_last(), excluded);
        if airports.last().id != excluded {
            rest.push(airports.last().id)
        } else {
            rest
        }
    }
}

impl AircraftView {
    /// What an aircraft does when it enters the approach of the airport
    /// whose airspace it is in. At another airport than the one it flies to,
    /// nothing. At its destination it tunes to approach; then, where
    /// arrivals are not diverted, it turns to the airport and reports in;
    /// where they are, it makes its destination its origin, takes as its new
    /// destination the airport that `draw` picks among the others, and is
    /// told to navigate there.
    pub open spec fn entering_approach(self, world: &World, draw: Option<int>) -> Outcome {
        match world.airspace_index(self.airspace) {
            Some(i) => {
                let airport = world.airports@[i];
                if airport.id != self.flight_plan.arriving {
                    Outcome::unchanged(self)
                } else {
                    let tuned = AircraftView {
                        segment: FlightSegment::Approach,
                        frequency: airport.frequencies.approach,
                        ..self
                    };
                    if !airport.status.divert_arrivals {
                        Outcome {
                            aircraft: tuned.with_target_heading(
                                bearing_between(self.pos, airport.center) as i64,
                            ),
                            emitted: seq![
                                EventKindView::Callout(
                                    CommandWithFreqView::saying(
                                        self.id,
                                        airport.frequencies.approach,
                                        CommandReply::ArriveInAirspace {
                                            direction: compass_point_of(
                                                bearing_between(airport.center, self.pos),
                                            ),
                                            altitude: self.altitude,
                                        },
                                    ),
                                ),
                            ],
                        }
                    } else {
                        let choices = other_airports(world.airports@, airport.id);
                        match draw {
                            Some(k) => if 0 <= k < choices.len() {
                                Outcome {
                                    aircraft: AircraftView {
                                        flight_plan: FlightPlanView {
                                            departing: self.flight_plan.arriving,
                                            arriving: choices[k],
                                            ..self.flight_plan
                                        },
                                        ..tuned
                                    },
                                    emitted: seq![
                                        EventKindView::ResumeOwnNavigation { diversion: true },
                                    ],
                                }
                            } else {
                                Outcome::silent(tuned)
                            },
                            None => Outcome::silent(tuned),
                        }
                    }
                }
            },
            None => Outcome::unchanged(self),
        }
    }
}

/// Begins the approach to a runway.
pub fn handle_land_event(aircraft: &mut Aircraft, runway_id: Name, world: &World)
    ensures
        final(aircraft)@ == old(aircraft)@.cleared_to_land(runway_id, world),
{
    let airborne = match &aircraft.state {
        AircraftState::Flying => true,
        AircraftState::Landing { .. } => true,
        _ => false,
    };
    if airborne {
        if let Some(airport) = world.airport_of(aircraft.airspace) {
            if let Some(runway) = airport.find_runway(runway_id) {
                aircraft.state = AircraftState::Landing { runway, state: LandingState::Approach };
            }
        }
    }
}

/// Takes off from a runway, or arms the takeoff at the end of the taxi route.
pub fn handle_takeoff_event(
    aircraft: &mut Aircraft,
    runway_id: Name,
    events: &mut Vec<Event>,
    world: &World,
)
    ensures
        final(aircraft)@ == old(aircraft)@.cleared_for_takeoff(runway_id, world).aircraft,
        events_view(final(events)@) == events_view(old(events)@) + addressed(
            old(aircraft).id,
            old(aircraft)@.cleared_for_takeoff(runway_id, world).emitted,
        ),
{
    let runway = match world.airport_of(aircraft.airspace) {
        Some(airport) => airport.find_runway(runway_id),
        None => None,
    };
    let id = aircraft.id;
    let mut done = false;
    if let Some(runway) = runway {
        let on_runway = match &aircraft.state {
            AircraftState::Taxiing { current, .. } => current.kind == NodeKind::Runway
                && current.name == runway_id,
            _ => false,
        };
        if on_runway {
            aircraft.target.speed = aircraft.minima.max_speed;
            aircraft.target.altitude = aircraft.flight_plan.altitude;
            aircraft.heading = runway.heading;
            aircraft.target.heading = runway.heading;
            aircraft.state = AircraftState::Flying;
            emit(events, id, EventKind::ResumeOwnNavigation { diversion: false });
            done = true;
        } else if set_runway_behavior(aircraft, runway_id, NodeBehavior::Takeoff) {
            emit(events, id, EventKind::TaxiContinue);
            done = true;
        }
    }
    if !done {
        assert(events_view(events@) =~= events_view(old(events)@) + addressed(id, Seq::empty()));
    }
}

/// Changes the behaviour of the destination of a taxi route where that is
/// the named runway, and says whether it did.
fn set_runway_behavior(aircraft: &mut Aircraft, runway: Name, behavior: NodeBehavior) -> (r: bool)
    ensures
        final(aircraft)@ == old(aircraft)@.with_runway_behavior(runway, behavior),
        r == (old(aircraft)@.state matches AircraftStateView::Taxiing { waypoints, .. }
            && waypoints.len() > 0 && waypoints[0].kind == NodeKind::Runway && waypoints[0].name
            == runway),
{
    match &mut aircraft.state {
        AircraftState::Taxiing { waypoints, .. } => {
            if waypoints.len() > 0 {
                let first = waypoints[0];
                if first.kind == NodeKind::Runway && first.name == runway {
                    waypoints.set(
                        0,
                        Node { name: first.name, kind: first.kind, behavior, data: first.data },
                    );
                    return true;
                }
            }
            false
        },
        _ => false,
    }
}

/// The names of the airports other than `excluded`, in order.
fn airports_except(world: &World, excluded: Name) -> (r: Vec<Name>)
    ensures
        r@ == other_airports(world.airports@, excluded),
{
    let mut names: Vec<Name> = Vec::new();
    let mut i: usize = 0;
    while i < world.airports.len()
        invariant
            i <= world.airports.len(),
            names@ == other_airports(world.airports@.take(i as int), excluded),
        decreases world.airports.len() - i,
    {
        proof {
            assert(world.airports@.take(i + 1).drop_last() =~= world.airports@.take(i as int));
        }
        if world.airports[i].id != excluded {
            names.push(world.airports[i].id);
        }
        i = i + 1;
    }
    assert(world.airports@.take(i as int) =~= world.airports@);
    names
}

/// What an aircraft does when it enters the approach, given what was drawn
/// among the other airports.
pub fn enter_approach(
    aircraft: &mut Aircraft,
    world: &World,
    events: &mut Vec<Event>,
    draw: Option<usize>,
)
    requires
        old(aircraft)@.wf(),
        world.wf(),
    ensures
        ({
            let spec_draw = match draw {
                Some(k) => Some(k as int),
                None => None,
            };
            &&& final(aircraft)@ == old(aircraft)@.entering_approach(world, spec_draw).aircraft
            &&& events_view(final(events)@) == events_view(old(events)@) + addressed(
                old(aircraft).id,
                old(aircraft)@.entering_approach(world, spec_draw).emitted,
            )
        }),
        final(aircraft)@.wf(),
{
    let id = aircraft.id;
    let mut silent = true;
    if let Some(airport) = world.airport_of(aircraft.airspace) {
        if airport.id == aircraft.flight_plan.arriving {
            aircraft.segment = FlightSegment::Approach;
            aircraft.frequency = airport.frequencies.approach;
            if !airport.status.divert_arrivals {
                aircraft.target.heading = angle_between_points(aircraft.pos, airport.center);
                let direction = heading_to_direction(
                    angle_between_points(airport.center, aircraft.pos),
                );
                let command = CommandWithFreq::new(
                    id,
                    airport.frequencies.approach,
                    CommandReply::ArriveInAirspace { direction, altitude: aircraft.altitude },
                    Vec::new(),
                );
                assert(command@.tasks =~= Seq::empty());
                emit(events, id, EventKind::Callout(command));
                silent = false;
            } else {
                let choices = airports_except(world, airport.id);
                if let Some(k) = draw {
                    if k < choices.len() {
                        aircraft.flight_plan.departing = aircraft.flight_plan.arriving;
                        aircraft.flight_plan.arriving = choices[k];
                        emit(events, id, EventKind::ResumeOwnNavigation { diversion: true });
                        silent = false;
                    }
                }
            }
        }
    }
    if silent {
        assert(events_view(events@) =~= events_view(old(events)@) + addressed(id, Seq::empty()));
    }
}

/// What an aircraft does when it enters the approach. Where arrivals are
/// diverted the new destination is drawn at random among the other airports.
pub fn handle_approach_transition(
    aircraft: &mut Aircraft,
    world: &World,
    events: &mut Vec<Event>,
    rng: &mut turborand::rng::Rng,
)
    requires
        old(aircraft)@.wf(),
        world.wf(),
    ensures
        exists|draw: Option<int>|
            {
                &&& draw_fits(
                    draw,
                    other_airports(world.airports@, old(aircraft)@.flight_plan.arriving).len() as int,
                )
                &&& final(aircraft)@ == (#[trigger] old(aircraft)@.entering_approach(
                    world,
                    draw,
                )).aircraft
                &&& events_view(final(events)@) == events_view(old(events)@) + addressed(
                    old(aircraft).id,
                    old(aircraft)@.entering_approach(world, draw).emitted,
                )
            },
        final(aircraft)@.wf(),
{
    let choices = airports_except(world, aircraft.flight_plan.arriving);
    let draw = sample_index(rng, choices.len());
    let ghost spec_draw = match draw {
        Some(k) => Some(k as int),
        None => None,
    };
    enter_approach(aircraft, world, events, draw);
    assert(draw_fits(spec_draw, choices@.len() as int));
}

impl AircraftView {
    /// `Segment`: the aircraft is in the new segment. Dormant, its flight
    /// time is forgotten. Parked after boarding, it reports ready for taxi;
    /// parked after taxiing in, it is told to go dormant. On approach after
    /// arrival, it enters the approach, with `draw` for its diversion.
    pub open spec fn segment_changed(
        self,
        prev: FlightSegment,
        segment: FlightSegment,
        world: &World,
        draw: Option<int>,
    ) -> Outcome {
        let a = AircraftView { segment, ..self };
        match segment {
            FlightSegment::Dormant => Outcome::silent(AircraftView { flight_time: None, ..a }),
            FlightSegment::Parked => if prev == FlightSegment::Boarding {
                a.ready_for_taxi(world)
            } else if prev == FlightSegment::TaxiArr {
                Outcome {
                    aircraft: a,
                    emitted: seq![
                        EventKindView::Segment(FlightSegment::Parked, FlightSegment::Dormant),
                    ],
                }
            } else {
                Outcome::silent(a)
            },
            FlightSegment::Approach => if prev == FlightSegment::Arrival {
                a.entering_approach(world, draw)
            } else {
                Outcome::silent(a)
            },
            _ => Outcome::silent(a),
        }
    }

    /// Whether `outcome` is what an event of the given kind does to the
    /// aircraft. All but two kinds have one outcome. A taxi clearance has
    /// the outcome of the routes that are found; a change of segment that
    /// diverts the aircraft has the outcome of the draw of its destination.
    #[verifier::opaque]
    pub open spec fn event_outcome(self, kind: EventKindView, world: &World, outcome: Outcome) -> bool {
        match kind {
            EventKindView::Speed(v) => outcome == Outcome::silent(self.speed_set(v)),
            EventKindView::SpeedAtOrBelow(v) => outcome == Outcome::silent(self.speed_capped(v)),
            EventKindView::SpeedAtOrAbove(v) => outcome == Outcome::silent(self.speed_raised(v)),
            EventKindView::Heading(h) => outcome == Outcome::silent(self.heading_set(h)),
            EventKindView::Altitude(v) => outcome == Outcome::silent(self.altitude_set(v)),
            EventKindView::AltitudeAtOrBelow(v) => outcome == Outcome::silent(
                self.altitude_capped(v),
            ),
            EventKindView::AltitudeAtOrAbove(v) => outcome == Outcome::silent(
                self.altitude_raised(v),
            ),
            EventKindView::Frequency(frequency) => outcome == Outcome::silent(
                AircraftView { frequency, ..self },
            ),
            EventKindView::NamedFrequency(name) => outcome == Outcome::silent(
                self.frequency_named(name, world),
            ),
            EventKindView::ResumeOwnNavigation { diversion } => outcome == self.navigating(
                world,
                diversion,
            ),
            EventKindView::Direct(name) => outcome == Outcome::silent(self.directed(name)),
            EventKindView::AmendAndFollow(tail) => outcome == Outcome::silent(self.amended(tail)),
            EventKindView::Land(runway) => outcome == Outcome::silent(
                self.cleared_to_land(runway, world),
            ),
            EventKindView::GoAround => outcome == self.gone_around(),
            EventKindView::Touchdown => outcome == if self.state is Landing {
                Outcome::silent(touched_down(self))
            } else {
                Outcome::unchanged(self)
            },
            EventKindView::Takeoff(runway) => outcome == self.cleared_for_takeoff(runway, world),
            EventKindView::Taxi(destinations) => if self.state.on_ground() {
                match world.airspace_index(self.airspace) {
                    Some(i) => self.taxi_outcome(
                        destinations,
                        &world.airports@[i].pathfinder,
                        world,
                        outcome,
                    ),
                    None => outcome == Outcome::unchanged(self),
                }
            } else {
                outcome == Outcome::unchanged(self)
            },
            EventKindView::TaxiContinue => outcome == Outcome::silent(self.taxi_continued()),
            EventKindView::TaxiHold { and_state } => outcome == Outcome::silent(
                self.taxi_held(and_state),
            ),
            EventKindView::LineUp(runway) => outcome == self.lined_up(runway),
            EventKindView::Ident => outcome == self.identified(),
            EventKindView::Callout(_) => outcome == Outcome::unchanged(self),
            EventKindView::CalloutTARA => outcome == self.conflict_resolved(),
            EventKindView::Segment(prev, segment) => exists|draw: Option<int>|
                {
                    &&& draw_fits(
                        draw,
                        other_airports(world.airports@, self.flight_plan.arriving).len() as int,
                    )
                    &&& outcome == #[trigger] self.segment_changed(prev, segment, world, draw)
                },
            EventKindView::Delete => outcome == (Outcome {
                aircraft: self,
                emitted: seq![EventKindView::Delete],
            }),
        }
    }
}

/// A copy of a list of waypoints.
fn copy_waypoints(waypoints: &Vec<Node<VORData>>) -> (r: Vec<Node<VORData>>)
    ensures
        r@ == waypoints@,
{
    let mut copy: Vec<Node<VORData>> = Vec::new();
    let mut i: usize = 0;
    while i < waypoints.len()
        invariant
            i <= waypoints@.len(),
            copy@ == waypoints@.take(i as int),
        decreases waypoints.len() - i,
    {
        copy.push(waypoints[i]);
        assert(copy@ =~= waypoints@.take(i + 1));
        i = i + 1;
    }
    assert(waypoints@.take(i as int) =~= waypoints@);
    copy
}

/// Whether every waypoint lies on the map.
fn all_in_range(waypoints: &Vec<Node<VORData>>) -> (r: bool)
    ensures
        r == forall|i: int| 0 <= i < waypoints@.len() ==> (#[trigger] waypoints@[i]).data.pos.in_range(),
{
    let mut i: usize = 0;
    while i < waypoints.len()
        invariant
            i <= waypoints@.len(),
            forall|j: int| 0 <= j < i ==> (#[trigger] waypoints@[j]).data.pos.in_range(),
        decreases waypoints.len() - i,
    {
        let p = waypoints[i].data.pos;
        if !(-1_000_000_000_000 <= p.x && p.x <= 1_000_000_000_000 && -1_000_000_000_000 <= p.y
            && p.y <= 1_000_000_000_000) {
            return false;
        }
        i = i + 1;
    }
    true
}

/// Goes on at the first waypoint with the given name.
fn direct_to(aircraft: &mut Aircraft, name: Name)
    requires
        old(aircraft)@.wf(),
    ensures
        final(aircraft)@ == old(aircraft)@.directed(name),
        final(aircraft)@.wf(),
{
    let ghost wanted = |w: Node<VORData>| w.name == name;
    let mut i: usize = 0;
    while i < aircraft.flight_plan.waypoints.len()
        invariant
            aircraft@ == old(aircraft)@,
            aircraft@.wf(),
            i <= aircraft.flight_plan.waypoints@.len(),
            wanted == (|w: Node<VORData>| w.name == name),
            forall|j: int| 0 <= j < i ==> !wanted(#[trigger] aircraft.flight_plan.waypoints@[j]),
        decreases aircraft.flight_plan.waypoints.len() - i,
    {
        if aircraft.flight_plan.waypoints[i].name == name {
            proof {
                lemma_first_index_found(aircraft.flight_plan.waypoints@, wanted, i as int);
            }
            aircraft.flight_plan.waypoint_index = i;
            return;
        }
        i = i + 1;
    }
    proof {
        lemma_first_index_absent(aircraft.flight_plan.waypoints@, wanted);
    }
}

/// Lets a taxiing aircraft go on.
fn taxi_continue(aircraft: &mut Aircraft)
    ensures
        final(aircraft)@ == old(aircraft)@.taxi_continued(),
{
    match &mut aircraft.state {
        AircraftState::Taxiing { state, .. } => {
            match *state {
                TaxiingState::Holding => {
                    *state = TaxiingState::Armed;
                },
                TaxiingState::Stopped => {
                    *state = TaxiingState::Override;
                },
                _ => {},
            }
            aircraft.target.speed = TAXI_SPEED;
        },
        _ => {},
    }
}

/// Stops an aircraft on the ground.
fn taxi_hold(aircraft: &mut Aircraft, and_state: bool)
    ensures
        final(aircraft)@ == old(aircraft)@.taxi_held(and_state),
{
    match &mut aircraft.state {
        AircraftState::Taxiing { state, .. } => {
            if and_state {
                *state = TaxiingState::Holding;
            }
            aircraft.target.speed = 0;
            aircraft.speed = 0;
        },
        AircraftState::Parked { .. } => {
            aircraft.target.speed = 0;
            aircraft.speed = 0;
        },
        _ => {},
    }
}

/// Sets, caps or raises the speed target.
fn change_target_speed(aircraft: &mut Aircraft, speed: i64, lower: bool, raise: bool)
    requires
        old(aircraft)@.wf(),
        !(lower && raise),
    ensures
        final(aircraft)@ == if lower {
            old(aircraft)@.speed_capped(speed)
        } else if raise {
            old(aircraft)@.speed_raised(speed)
        } else {
            old(aircraft)@.speed_set(speed)
        },
        final(aircraft)@.wf(),
{
    if (lower && aircraft.target.speed <= speed) || (raise && aircraft.target.speed >= speed) {
        return;
    }
    aircraft.target.speed = hold(speed, SPEED_LIMIT);
}

/// Sets, caps or raises the altitude target.
fn change_target_altitude(aircraft: &mut Aircraft, altitude: i64, lower: bool, raise: bool)
    requires
        old(aircraft)@.wf(),
        !(lower && raise),
    ensures
        final(aircraft)@ == if lower {
            old(aircraft)@.altitude_capped(altitude)
        } else if raise {
            old(aircraft)@.altitude_raised(altitude)
        } else {
            old(aircraft)@.altitude_set(altitude)
        },
        final(aircraft)@.wf(),
{
    if (lower && aircraft.target.altitude <= altitude) || (raise && aircraft.target.altitude
        >= altitude) {
        return;
    }
    aircraft.target.altitude = hold(altitude, ALTITUDE_LIMIT);
}

/// Sets the heading target of an aircraft that flies or lands.
fn change_target_heading(aircraft: &mut Aircraft, heading: i64)
    requires
        old(aircraft)@.wf(),
    ensures
        final(aircraft)@ == old(aircraft)@.heading_set(heading),
        final(aircraft)@.wf(),
{
    let airborne = match &aircraft.state {
        AircraftState::Flying => true,
        AircraftState::Landing { .. } => true,
        _ => false,
    };
    if airborne {
        aircraft.target.heading = normalize_angle(heading);
        aircraft.flight_plan.stop_following();
        aircraft.flight_plan.course_offset = 0;
    }
}

/// Tunes the radio to a named frequency of the airport whose airspace the
/// aircraft is in.
fn tune_named_frequency(aircraft: &mut Aircraft, name: Name, world: &World)
    ensures
        final(aircraft)@ == old(aircraft)@.frequency_named(name, world),
{
    if let Some(airport) = world.airport_of(aircraft.airspace) {
        if let Some(frequency) = airport.frequencies.try_from_name(name) {
            aircraft.frequency = frequency;
        }
    }
}

/// Replaces the rest of the plan and follows it.
fn amend_and_follow(aircraft: &mut Aircraft, waypoints: &Vec<Node<VORData>>)
    requires
        old(aircraft)@.wf(),
    ensures
        final(aircraft)@ == old(aircraft)@.amended(waypoints@),
        final(aircraft)@.wf(),
{
    if all_in_range(waypoints) {
        aircraft.flight_plan.amend_end(copy_waypoints(waypoints));
        aircraft.flight_plan.start_following();
    }
}

/// Breaks off a landing.
fn go_around(aircraft: &mut Aircraft, events: &mut Vec<Event>)
    requires
        old(aircraft)@.wf(),
    ensures
        final(aircraft)@ == old(aircraft)@.gone_around().aircraft,
        events_view(final(events)@) == events_view(old(events)@) + addressed(
            old(aircraft).id,
            old(aircraft)@.gone_around().emitted,
        ),
        final(aircraft)@.wf(),
{
    let id = aircraft.id;
    let landing = match &aircraft.state {
        AircraftState::Landing { .. } => true,
        _ => false,
    };
    if landing {
        aircraft.state = AircraftState::Flying;
        aircraft.flight_plan.stop_following();
        aircraft.flight_plan.course_offset = 0;
        aircraft.target.heading = aircraft.heading;
        aircraft.target.altitude = aircraft.altitude;
        aircraft.target.speed = aircraft.speed;
        emit(events, id, EventKind::AltitudeAtOrAbove(GO_AROUND_ALTITUDE));
        emit(events, id, EventKind::SpeedAtOrAbove(GO_AROUND_SPEED));
        assert(events_view(events@) =~= events_view(old(events)@) + addressed(
            id,
            old(aircraft)@.gone_around().emitted,
        ));
    } else {
        assert(events_view(events@) =~= events_view(old(events)@) + addressed(id, Seq::empty()));
    }
}

/// Lines a taxiing aircraft up on the runway at the end of its route.
fn line_up(aircraft: &mut Aircraft, runway: Name, events: &mut Vec<Event>)
    ensures
        final(aircraft)@ == old(aircraft)@.lined_up(runway).aircraft,
        events_view(final(events)@) == events_view(old(events)@) + addressed(
            old(aircraft).id,
            old(aircraft)@.lined_up(runway).emitted,
        ),
{
    let id = aircraft.id;
    if set_runway_behavior(aircraft, runway, NodeBehavior::LineUp) {
        emit(events, id, EventKind::TaxiContinue);
    } else {
        assert(events_view(events@) =~= events_view(old(events)@) + addressed(id, Seq::empty()));
    }
}

/// Says the name of the aircraft on its frequency.
fn identify(aircraft: &Aircraft, events: &mut Vec<Event>)
    ensures
        events_view(final(events)@) == events_view(old(events)@) + addressed(
            aircraft.id,
            aircraft@.identified().emitted,
        ),
{
    let command = CommandWithFreq::new(
        aircraft.id,
        aircraft.frequency,
        CommandReply::Empty,
        Vec::new(),
    );
    assert(command@.tasks =~= Seq::empty());
    emit(events, aircraft.id, EventKind::Callout(command));
}

/// Puts the aircraft into a new segment of its flight.
fn change_segment(
    aircraft: &mut Aircraft,
    prev: FlightSegment,
    segment: FlightSegment,
    events: &mut Vec<Event>,
    world: &World,
    rng: &mut turborand::rng::Rng,
)
    requires
        old(aircraft)@.wf(),
        world.wf(),
    ensures
        final(aircraft)@.wf(),
        exists|draw: Option<int>|
            {
                &&& draw_fits(
                    draw,
                    other_airports(world.airports@, old(aircraft)@.flight_plan.arriving).len() as int,
                )
                &&& final(aircraft)@ == (#[trigger] old(aircraft)@.segment_changed(
                    prev,
                    segment,
                    world,
                    draw,
                )).aircraft
                &&& events_view(final(events)@) == events_view(old(events)@) + addressed(
                    old(aircraft).id,
                    old(aircraft)@.segment_changed(prev, segment, world, draw).emitted,
                )
            },
{
    let id = aircraft.id;
    let ghost a = aircraft@;
    let ghost before = events_view(events@);
    aircraft.segment = segment;
    let ghost b = aircraft@;
    let ghost mut draw: Option<int> = if other_airports(
        world.airports@,
        a.flight_plan.arriving,
    ).len() == 0 {
        None
    } else {
        Some(0)
    };
    let mut silent = true;
    match segment {
        FlightSegment::Dormant => {
            aircraft.flight_time = None;
        },
        FlightSegment::Parked => {
            if prev == FlightSegment::Boarding {
                handle_parked_transition(aircraft, events, world);
                silent = false;
            } else if prev == FlightSegment::TaxiArr {
                emit(events, id, EventKind::Segment(FlightSegment::Parked, FlightSegment::Dormant));
                silent = false;
            }
        },
        FlightSegment::Approach => {
            if prev == FlightSegment::Arrival {
                handle_approach_transition(aircraft, world, events, rng);
                silent = false;
                proof {
                    draw = choose|draw: Option<int>|
                        {
                            &&& draw_fits(
                                draw,
                                other_airports(world.airports@, b.flight_plan.arriving).len() as int,
                            )
                            &&& aircraft@ == (#[trigger] b.entering_approach(world, draw)).aircraft
                            &&& events_view(events@) == before + addressed(
                                id,
                                b.entering_approach(world, draw).emitted,
                            )
                        };
                }
            }
        },
        _ => {},
    }
    proof {
        if silent {
            assert(events_view(events@) =~= before + addressed(id, Seq::empty()));
        }
        let outcome = a.segment_changed(prev, segment, world, draw);
        assert(aircraft@ == outcome.aircraft);
        assert(events_view(events@) == before + addressed(id, outcome.emitted));
    }
}

/// Plans and begins the taxi of an aircraft on the ground at the airport
/// whose airspace it is in.
fn taxi(aircraft: &mut Aircraft, waypoints: &Vec<Node<()>>, events: &mut Vec<Event>, world: &World)
    requires
        old(aircraft)@.wf(),
        world.wf(),
    ensures
        final(aircraft)@.wf(),
        exists|outcome: Outcome|
            {
                &&& #[trigger] old(aircraft)@.event_outcome(
                    EventKindView::Taxi(waypoints@),
                    world,
                    outcome,
                )
                &&& final(aircraft)@ == outcome.aircraft
                &&& events_view(final(events)@) == events_view(old(events)@) + addressed(
                    old(aircraft).id,
                    outcome.emitted,
                )
            },
{
    let id = aircraft.id;
    let ghost a = aircraft@;
    let ghost before = events_view(events@);
    reveal(AircraftView::event_outcome);
    let on_ground = match &aircraft.state {
        AircraftState::Taxiing { .. } => true,
        AircraftState::Parked { .. } => true,
        _ => false,
    };
    if on_ground {
        if let Some(airport) = world.airport_of(aircraft.airspace) {
            handle_taxi_event(aircraft, waypoints.as_slice(), &airport.pathfinder, events, world);
            proof {
                let outcome = choose|outcome: Outcome|
                    {
                        &&& #[trigger] a.taxi_outcome(
                            waypoints@,
                            &airport.pathfinder,
                            world,
                            outcome,
                        )
                        &&& aircraft@ == outcome.aircraft
                        &&& events_view(events@) == before + addressed(id, outcome.emitted)
                    };
                assert(a.event_outcome(EventKindView::Taxi(waypoints@), world, outcome));
            }
            return;
        }
    }
    proof {
        let outcome = Outcome::unchanged(a);
        assert(events_view(events@) =~= before + addressed(id, outcome.emitted));
        assert(a.event_outcome(EventKindView::Taxi(waypoints@), world, outcome));
    }
}

/// Applies an event that changes the aircraft and sends nothing out.
fn apply_silent_event(aircraft: &mut Aircraft, event: &EventKind, world: &World) -> (outcome: Ghost<
    Outcome,
>)
    requires
        old(aircraft)@.wf(),
        world.wf(),
        match event@ {
            EventKindView::Speed(_)
            | EventKindView::SpeedAtOrBelow(_)
            | EventKindView::SpeedAtOrAbove(_)
            | EventKindView::Heading(_)
            | EventKindView::Altitude(_)
            | EventKindView::AltitudeAtOrBelow(_)
            | EventKindView::AltitudeAtOrAbove(_)
            | EventKindView::Frequency(_)
            | EventKindView::NamedFrequency(_)
            | EventKindView::Direct(_)
            | EventKindView::AmendAndFollow(_)
            | EventKindView::Land(_)
            | EventKindView::Touchdown
            | EventKindView::TaxiContinue
            | EventKindView::TaxiHold { .. }
            | EventKindView::Callout(_) => true,
            _ => false,
        },
    ensures
        final(aircraft)@.wf(),
        old(aircraft)@.event_outcome(event@, world, outcome@),
        outcome@ == Outcome::silent(final(aircraft)@),
{
    reveal(AircraftView::event_outcome);
    match event {
        EventKind::Speed(speed) => change_target_speed(aircraft, *speed, false, false),
        EventKind::SpeedAtOrBelow(speed) => change_target_speed(aircraft, *speed, true, false),
        EventKind::SpeedAtOrAbove(speed) => change_target_speed(aircraft, *speed, false, true),
        EventKind::Heading(heading) => change_target_heading(aircraft, *heading),
        EventKind::Altitude(altitude) => change_target_altitude(aircraft, *altitude, false, false),
        EventKind::AltitudeAtOrBelow(altitude) => change_target_altitude(
            aircraft,
            *altitude,
            true,
            false,
        ),
        EventKind::AltitudeAtOrAbove(altitude) => change_target_altitude(
            aircraft,
            *altitude,
            false,
            true,
        ),
        EventKind::Frequency(frequency) => {
            aircraft.frequency = *frequency;
        },
        EventKind::NamedFrequency(name) => tune_named_frequency(aircraft, *name, world),
        EventKind::Direct(name) => direct_to(aircraft, *name),
        EventKind::AmendAndFollow(waypoints) => amend_and_follow(aircraft, waypoints),
        EventKind::Land(runway) => {
            handle_land_event(aircraft, *runway, world);
            proof {
                match world.airspace_index(old(aircraft)@.airspace) {
                    Some(i) => {
                        assert(world.airports@[i].wf());
                    },
                    None => {},
                }
            }
        },
        EventKind::Touchdown => {
            let landing = match &aircraft.state {
                AircraftState::Landing { .. } => true,
                _ => false,
            };
            if landing {
                handle_touchdown_event(aircraft);
            }
        },
        EventKind::TaxiContinue => taxi_continue(aircraft),
        EventKind::TaxiHold { and_state } => taxi_hold(aircraft, *and_state),
        _ => {},
    }
    Ghost(Outcome::silent(aircraft@))
}

/// Applies `ResumeOwnNavigation`.
fn apply_navigation_event(
    aircraft: &mut Aircraft,
    diversion: bool,
    events: &mut Vec<Event>,
    world: &World,
) -> (outcome: Ghost<Outcome>)
    requires
        old(aircraft)@.wf(),
        world.wf(),
    ensures
        final(aircraft)@.wf(),
        old(aircraft)@.event_outcome(EventKindView::ResumeOwnNavigation { diversion }, world, outcome@),
        final(aircraft)@ == outcome@.aircraft,
        events_view(final(events)@) == events_view(old(events)@) + addressed(
            old(aircraft).id,
            outcome@.emitted,
        ),
{
    reveal(AircraftView::event_outcome);
    let ghost a = aircraft@;
    resume_own_navigation(aircraft, diversion, events, world);
    Ghost(a.navigating(world, diversion))
}

/// Applies `GoAround`.
fn apply_go_around_event(
    aircraft: &mut Aircraft,
    events: &mut Vec<Event>,
    world: &World,
) -> (outcome: Ghost<Outcome>)
    requires
        old(aircraft)@.wf(),
        world.wf(),
    ensures
        final(aircraft)@.wf(),
        old(aircraft)@.event_outcome(EventKindView::GoAround, world, outcome@),
        final(aircraft)@ == outcome@.aircraft,
        events_view(final(events)@) == events_view(old(events)@) + addressed(
            old(aircraft).id,
            outcome@.emitted,
        ),
{
    reveal(AircraftView::event_outcome);
    let ghost a = aircraft@;
    go_around(aircraft, events);
    Ghost(a.gone_around())
}

/// Applies `Takeoff`.
fn apply_takeoff_event(
    aircraft: &mut Aircraft,
    runway: Name,
    events: &mut Vec<Event>,
    world: &World,
) -> (outcome: Ghost<Outcome>)
    requires
        old(aircraft)@.wf(),
        world.wf(),
    ensures
        final(aircraft)@.wf(),
        old(aircraft)@.event_outcome(EventKindView::Takeoff(runway), world, outcome@),
        final(aircraft)@ == outcome@.aircraft,
        events_view(final(events)@) == events_view(old(events)@) + addressed(
            old(aircraft).id,
            outcome@.emitted,
        ),
{
    reveal(AircraftView::event_outcome);
    let ghost a = aircraft@;
    handle_takeoff_event(aircraft, runway, events, world);
    proof {
        match world.airspace_index(a.airspace) {
            Some(i) => {
                assert(world.airports@[i].wf());
            },
            None => {},
        }
    }
    Ghost(a.cleared_for_takeoff(runway, world))
}

/// Applies `LineUp`.
fn apply_line_up_event(
    aircraft: &mut Aircraft,
    runway: Name,
    events: &mut Vec<Event>,
    world: &World,
) -> (outcome: Ghost<Outcome>)
    requires
        old(aircraft)@.wf(),
        world.wf(),
    ensures
        final(aircraft)@.wf(),
        old(aircraft)@.event_outcome(EventKindView::LineUp(runway), world, outcome@),
        final(aircraft)@ == outcome@.aircraft,
        events_view(final(events)@) == events_view(old(events)@) + addressed(
            old(aircraft).id,
            outcome@.emitted,
        ),
{
    reveal(AircraftView::event_outcome);
    let ghost a = aircraft@;
    line_up(aircraft, runway, events);
    Ghost(a.lined_up(runway))
}

/// Applies `Ident`.
fn apply_ident_event(
    aircraft: &mut Aircraft,
    events: &mut Vec<Event>,
    world: &World,
) -> (outcome: Ghost<Outcome>)
    requires
        old(aircraft)@.wf(),
        world.wf(),
    ensures
        final(aircraft)@.wf(),
        old(aircraft)@.event_outcome(EventKindView::Ident, world, outcome@),
        final(aircraft)@ == outcome@.aircraft,
        events_view(final(events)@) == events_view(old(events)@) + addressed(
            old(aircraft).id,
            outcome@.emitted,
        ),
{
    reveal(AircraftView::event_outcome);
    let ghost a = aircraft@;
    identify(aircraft, events);
    Ghost(a.identified())
}

/// Applies `CalloutTARA`.
fn apply_callout_tara_event(
    aircraft: &mut Aircraft,
    events: &mut Vec<Event>,
    world: &World,
) -> (outcome: Ghost<Outcome>)
    requires
        old(aircraft)@.wf(),
        world.wf(),
    ensures
        final(aircraft)@.wf(),
        old(aircraft)@.event_outcome(EventKindView::CalloutTARA, world, outcome@),
        final(aircraft)@ == outcome@.aircraft,
        events_view(final(events)@) == events_view(old(events)@) + addressed(
            old(aircraft).id,
            outcome@.emitted,
        ),
{
    reveal(AircraftView::event_outcome);
    let ghost a = aircraft@;
    handle_callout_tara(aircraft, events);
    Ghost(a.conflict_resolved())
}

/// Applies `Delete`.
fn apply_delete_event(
    aircraft: &mut Aircraft,
    events: &mut Vec<Event>,
    world: &World,
) -> (outcome: Ghost<Outcome>)
    requires
        old(aircraft)@.wf(),
        world.wf(),
    ensures
        final(aircraft)@.wf(),
        old(aircraft)@.event_outcome(EventKindView::Delete, world, outcome@),
        final(aircraft)@ == outcome@.aircraft,
        events_view(final(events)@) == events_view(old(events)@) + addressed(
            old(aircraft).id,
            outcome@.emitted,
        ),
{
    reveal(AircraftView::event_outcome);
    let ghost a = aircraft@;
    emit(events, aircraft.id, EventKind::Delete);
    Ghost(Outcome { aircraft: a, emitted: seq![EventKindView::Delete] })
}

/// Applies a change of segment.
fn apply_segment_event(
    aircraft: &mut Aircraft,
    prev: FlightSegment,
    segment: FlightSegment,
    events: &mut Vec<Event>,
    world: &World,
    rng: &mut turborand::rng::Rng,
) -> (outcome: Ghost<Outcome>)
    requires
        old(aircraft)@.wf(),
        world.wf(),
    ensures
        final(aircraft)@.wf(),
        old(aircraft)@.event_outcome(EventKindView::Segment(prev, segment), world, outcome@),
        final(aircraft)@ == outcome@.aircraft,
        events_view(final(events)@) == events_view(old(events)@) + addressed(
            old(aircraft).id,
            outcome@.emitted,
        ),
{
    reveal(AircraftView::event_outcome);
    let ghost a = aircraft@;
    let ghost before = events_view(events@);
    change_segment(aircraft, prev, segment, events, world, rng);
    let ghost draw = choose|draw: Option<int>|
        {
            &&& draw_fits(
                draw,
                other_airports(world.airports@, a.flight_plan.arriving).len() as int,
            )
            &&& aircraft@ == (#[trigger] a.segment_changed(prev, segment, world, draw)).aircraft
            &&& events_view(events@) == before + addressed(
                a.id,
                a.segment_changed(prev, segment, world, draw).emitted,
            )
        };
    Ghost(a.segment_changed(prev, segment, world, draw))
}

/// Applies a taxi clearance.
fn apply_taxi_event(
    aircraft: &mut Aircraft,
    waypoints: &Vec<Node<()>>,
    events: &mut Vec<Event>,
    world: &World,
) -> (outcome: Ghost<Outcome>)
    requires
        old(aircraft)@.wf(),
        world.wf(),
    ensures
        final(aircraft)@.wf(),
        old(aircraft)@.event_outcome(EventKindView::Taxi(waypoints@), world, outcome@),
        final(aircraft)@ == outcome@.aircraft,
        events_view(final(events)@) == events_view(old(events)@) + addressed(
            old(aircraft).id,
            outcome@.emitted,
        ),
{
    let ghost a = aircraft@;
    let ghost before = events_view(events@);
    taxi(aircraft, waypoints, events, world);
    Ghost(
        choose|outcome: Outcome|
            {
                &&& #[trigger] a.event_outcome(EventKindView::Taxi(waypoints@), world, outcome)
                &&& aircraft@ == outcome.aircraft
                &&& events_view(events@) == before + addressed(a.id, outcome.emitted)
            },
    )
}

/// Applies one event to the aircraft that it is addressed to, and appends
/// what the aircraft sends out in turn to `events`.
pub fn handle_aircraft_event(
    aircraft: &mut Aircraft,
    event: &EventKind,
    events: &mut Vec<Event>,
    world: &World,
    rng: &mut turborand::rng::Rng,
)
    requires
        old(aircraft)@.wf(),
        world.wf(),
    ensures
        final(aircraft)@.wf(),
        final(aircraft)@.id == old(aircraft)@.id,
        exists|outcome: Outcome|
            {
                &&& #[trigger] old(aircraft)@.event_outcome(event@, world, outcome)
                &&& final(aircraft)@ == outcome.aircraft
                &&& events_view(final(events)@) == events_view(old(events)@) + addressed(
                    old(aircraft).id,
                    outcome.emitted,
                )
            },
{
    let ghost a = aircraft@;
    let outcome = match event {
        EventKind::Taxi(waypoints) => apply_taxi_event(aircraft, waypoints, events, world),
        EventKind::Segment(prev, segment) => apply_segment_event(
            aircraft,
            *prev,
            *segment,
            events,
            world,
            rng,
        ),
        EventKind::ResumeOwnNavigation { diversion } => apply_navigation_event(
            aircraft,
            *diversion,
            events,
            world,
        ),
        EventKind::GoAround => apply_go_around_event(aircraft, events, world),
        EventKind::Takeoff(runway) => apply_takeoff_event(aircraft, *runway, events, world),
        EventKind::LineUp(runway) => apply_line_up_event(aircraft, *runway, events, world),
        EventKind::Ident => apply_ident_event(aircraft, events, world),
        EventKind::CalloutTARA => apply_callout_tara_event(aircraft, events, world),
        EventKind::Delete => apply_delete_event(aircraft, events, world),
        _ => {
            let applied = apply_silent_event(aircraft, event, world);
            assert(events_view(events@) =~= events_view(old(events)@) + addressed(
                a.id,
                applied@.emitted,
            ));
            applied
        },
    };
    assert(a.event_outcome(event@, world, outcome@));
    proof {
        lemma_outcome_keeps_id(a, event@, world, outcome@);
    }
}

/// No event changes the name of the aircraft.
pub proof fn lemma_outcome_keeps_id(a: AircraftView, kind: EventKindView, world: &World, outcome: Outcome)
    requires
        a.event_outcome(kind, world, outcome),
    ensures
        outcome.aircraft.id == a.id,
{
    reveal(AircraftView::event_outcome);
}

/// A copy of a list of taxi destinations.
fn copy_destinations(nodes: &Vec<Node<()>>) -> (r: Vec<Node<()>>)
    ensures
        r@ == nodes@,
{
    let mut copy: Vec<Node<()>> = Vec::new();
    let mut i: usize = 0;
    while i < nodes.len()
        invariant
            i <= nodes@.len(),
            copy@ == nodes@.take(i as int),
        decreases nodes.len() - i,
    {
        copy.push(nodes[i]);
        assert(copy@ =~= nodes@.take(i + 1));
        i = i + 1;
    }
    assert(nodes@.take(i as int) =~= nodes@);
    copy
}

fn copy_task(task: &Task) -> (r: Task)
    ensures
        r@ == task@,
{
    match task {
        Task::Altitude(x) => Task::Altitude(*x),
        Task::Direct(x) => Task::Direct(*x),
        Task::Frequency(x) => Task::Frequency(*x),
        Task::GoAround => Task::GoAround,
        Task::Heading(x) => Task::Heading(*x),
        Task::Ident => Task::Ident,
        Task::Land(x) => Task::Land(*x),
        Task::NamedFrequency(x) => Task::NamedFrequency(*x),
        Task::ResumeOwnNavigation => Task::ResumeOwnNavigation,
        Task::Speed(x) => Task::Speed(*x),
        Task::Takeoff(x) => Task::Takeoff(*x),
        Task::Taxi(x) => Task::Taxi(copy_destinations(x)),
        Task::TaxiContinue => Task::TaxiContinue,
        Task::TaxiHold => Task::TaxiHold,
        Task::LineUp(x) => Task::LineUp(*x),
        Task::Delete => Task::Delete,
    }
}

fn copy_command(command: &CommandWithFreq) -> (r: CommandWithFreq)
    ensures
        r@ == command@,
{
    let mut tasks: Vec<Task> = Vec::new();
    let mut i: usize = 0;
    while i < command.tasks.len()
        invariant
            i <= command.tasks@.len(),
            tasks@.len() == i,
            crate::command::tasks_view(tasks@) == crate::command::tasks_view(
                command.tasks@.take(i as int),
            ),
        decreases command.tasks.len() - i,
    {
        let ghost before = tasks@;
        tasks.push(copy_task(&command.tasks[i]));
        assert(crate::command::tasks_view(tasks@) =~= crate::command::tasks_view(
            command.tasks@.take(i + 1),
        )) by {
            let a = crate::command::tasks_view(tasks@);
            let b = crate::command::tasks_view(command.tasks@.take(i + 1));
            let c = crate::command::tasks_view(before);
            let d = crate::command::tasks_view(command.tasks@.take(i as int));
            assert(a.len() == b.len());
            assert forall|k: int| 0 <= k < a.len() implies a[k] == b[k] by {
                if k < i {
                    assert(a[k] == c[k]);
                    assert(b[k] == d[k]);
                }
            }
        }
        i = i + 1;
    }
    assert(command.tasks@.take(i as int) =~= command.tasks@);
    CommandWithFreq {
        id: command.id,
        frequency: command.frequency,
        reply: command.reply,
        tasks,
    }
}

impl EventKind {
    /// A copy of the event kind.
    pub fn duplicate(&self) -> (r: EventKind)
        ensures
            r@ == self@,
    {
        match self {
            EventKind::Speed(x) => EventKind::Speed(*x),
            EventKind::SpeedAtOrBelow(x) => EventKind::SpeedAtOrBelow(*x),
            EventKind::SpeedAtOrAbove(x) => EventKind::SpeedAtOrAbove(*x),
            EventKind::Frequency(x) => EventKind::Frequency(*x),
            EventKind::NamedFrequency(x) => EventKind::NamedFrequency(*x),
            EventKind::Heading(x) => EventKind::Heading(*x),
            EventKind::Altitude(x) => EventKind::Altitude(*x),
            EventKind::AltitudeAtOrBelow(x) => EventKind::AltitudeAtOrBelow(*x),
            EventKind::AltitudeAtOrAbove(x) => EventKind::AltitudeAtOrAbove(*x),
            EventKind::ResumeOwnNavigation { diversion } => EventKind::ResumeOwnNavigation {
                diversion: *diversion,
            },
            EventKind::Direct(x) => EventKind::Direct(*x),
            EventKind::AmendAndFollow(x) => EventKind::AmendAndFollow(copy_waypoints(x)),
            EventKind::Land(x) => EventKind::Land(*x),
            EventKind::GoAround => EventKind::GoAround,
            EventKind::Touchdown => EventKind::Touchdown,
            EventKind::Takeoff(x) => EventKind::Takeoff(*x),
            EventKind::Taxi(x) => EventKind::Taxi(copy_destinations(x)),
            EventKind::TaxiContinue => EventKind::TaxiContinue,
            EventKind::TaxiHold { and_state } => EventKind::TaxiHold { and_state: *and_state },
            EventKind::LineUp(x) => EventKind::LineUp(*x),
            EventKind::Ident => EventKind::Ident,
            EventKind::Callout(x) => EventKind::Callout(copy_command(x)),
            EventKind::CalloutTARA => EventKind::CalloutTARA,
            EventKind::Segment(a, b) => EventKind::Segment(*a, *b),
            EventKind::Delete => EventKind::Delete,
        }
    }
}

/// A copy of a list of events.
pub fn copy_events(events: &Vec<Event>) -> (r: Vec<Event>)
    ensures
        events_view(r@) == events_view(events@),
{
    let mut copy: Vec<Event> = Vec::new();
    let mut i: usize = 0;
    while i < events.len()
        invariant
            i <= events@.len(),
            copy@.len() == i,
            events_view(copy@) == events_view(events@.take(i as int)),
        decreases events.len() - i,
    {
        let ghost before = copy@;
        let event = match &events[i] {
            Event::Aircraft(e) => Event::Aircraft(
                AircraftEvent { id: e.id, kind: e.kind.duplicate() },
            ),
            Event::UiEvent(e) => Event::UiEvent(*e),
        };
        copy.push(event);
        assert(events_view(copy@) =~= events_view(events@.take(i + 1))) by {
            let a = events_view(copy@);
            let b = events_view(events@.take(i + 1));
            let c = events_view(before);
            let d = events_view(events@.take(i as int));
            assert(a.len() == b.len());
            assert forall|k: int| 0 <= k < a.len() implies a[k] == b[k] by {
                if k < i {
                    assert(a[k] == c[k]);
                    assert(b[k] == d[k]);
                }
            }
        }
        i = i + 1;
    }
    assert(events@.take(i as int) =~= events@);
    copy
}

} // verus!
