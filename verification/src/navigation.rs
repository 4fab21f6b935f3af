//! The en-route plan of a flight: the transitions at both airports and the
//! track of waypoints between them.

use vstd::prelude::*;

use crate::aircraft::{Aircraft, AircraftState, AircraftView};
use crate::engine::{addressed, events_view, Event};
use crate::events::{emit, EventKind, EventKindView, Outcome};
use crate::geometry::{
    abs_i64, angle_between_points, bearing_between, delta_angle, distance_squared,
    distance_squared_of, magnitude, move_towards, moved_towards, turn_between, Point,
    NAUTICALMILES_TO_FEET,
};
use crate::names::{Name, NAME_SID, NAME_STAR};
use crate::pathfinder::{Node, NodeBehavior, NodeKind};
use crate::wayfinder::{
    new_vor, plain_vor, FlightPlanView, VORActions, VORData, VORLimit, VORLimits,
};
use crate::world::World;

verus! {

/// Thirty nautical miles: how far from an airport its transition waypoints lie.
pub const TRANSITION_DISTANCE: i64 = 30 * NAUTICALMILES_TO_FEET;

/// Ninety nautical miles: the longest leg between two waypoints of a track.
pub const TRACK_REACH: i64 = 90 * NAUTICALMILES_TO_FEET;

/// Forty-five degrees: how far a leg of a track may point off the course.
pub const TRACK_CONE: i64 = 45_000;

/// The speed limit at the arrival transition: two hundred and fifty knots.
pub const ARRIVAL_SPEED: i64 = 250_000;

/// How far the bearing from one point to another lies off a course.
pub open spec fn deviation(from: Point, to: Point, course: int) -> int {
    magnitude(turn_between(bearing_between(from, to), course))
}

/// Whether the waypoint `i` of the world can follow `from` on a track along
/// `course` toward `arrival`: it is another point, the leg to it and the way
/// from it to the arrival both keep within the cone round the course, and
/// it is within reach.
pub open spec fn on_track(world: &World, arrival: Point, course: int, from: Point, i: int) -> bool {
    let fix = world.waypoints@[i].data;
    &&& fix != from
    &&& deviation(from, fix, course) <= TRACK_CONE
    &&& deviation(fix, arrival, course) <= TRACK_CONE
    &&& distance_squared_of(from, fix) <= TRACK_REACH * TRACK_REACH
}

/// Whether the waypoint `i` is the one that follows `from` on the track: on
/// track, and off the course by the least; the first of those that are.
pub open spec fn is_next_fix(world: &World, arrival: Point, course: int, from: Point, i: int) -> bool {
    &&& 0 <= i < world.waypoints@.len()
    &&& on_track(world, arrival, course, from, i)
    &&& forall|j: int|
        0 <= j < world.waypoints@.len() && #[trigger] on_track(world, arrival, course, from, j) ==> {
            ||| deviation(from, world.waypoints@[i].data, course) < deviation(
                from,
                world.waypoints@[j].data,
                course,
            )
            ||| (deviation(from, world.waypoints@[i].data, course) == deviation(
                from,
                world.waypoints@[j].data,
                course,
            ) && i <= j)
        }
}

/// The waypoint that follows `from` on the track, if there is one.
pub open spec fn next_fix(world: &World, arrival: Point, course: int, from: Point) -> Option<int> {
    if exists|i: int| is_next_fix(world, arrival, course, from, i) {
        Some(choose|i: int| is_next_fix(world, arrival, course, from, i))
    } else {
        None
    }
}

/// The track from `from` toward `arrival`: the waypoint that follows, then
/// the one that follows that, and so on, of at most `limit` waypoints.
pub open spec fn track(world: &World, arrival: Point, course: int, from: Point, limit: nat) -> Seq<
    Node<VORData>,
>
    decreases limit,
{
    if limit == 0 {
        Seq::empty()
    } else {
        match next_fix(world, arrival, course, from) {
            Some(i) => {
                let fix = world.waypoints@[i];
                seq![plain_vor(fix.name, fix.data)] + track(
                    world,
                    arrival,
                    course,
                    fix.data,
                    (limit - 1) as nat,
                )
            },
            None => Seq::empty(),
        }
    }
}

proof fn lemma_next_fix_unique(world: &World, arrival: Point, course: int, from: Point, i: int)
    requires
        is_next_fix(world, arrival, course, from, i),
    ensures
        next_fix(world, arrival, course, from) == Some(i),
{
    let c = choose|c: int| is_next_fix(world, arrival, course, from, c);
    assert(on_track(world, arrival, course, from, c));
    assert(on_track(world, arrival, course, from, i));
}

/// Every waypoint of a track lies on the map.
pub proof fn lemma_track_in_range(world: &World, arrival: Point, course: int, from: Point, limit: nat)
    requires
        world.wf(),
    ensures
        forall|k: int|
            0 <= k < track(world, arrival, course, from, limit).len() ==> (#[trigger] track(
                world,
                arrival,
                course,
                from,
                limit,
            )[k]).data.pos.in_range(),
    decreases limit,
{
    if limit > 0 {
        match next_fix(world, arrival, course, from) {
            Some(i) => {
                let fix = world.waypoints@[i];
                lemma_track_in_range(world, arrival, course, fix.data, (limit - 1) as nat);
            },
            None => {},
        }
    }
}

fn deviation_exec(from: Point, to: Point, course: i64) -> (r: i64)
    requires
        from.in_range(),
        to.in_range(),
        0 <= course < 360_000,
    ensures
        r == deviation(from, to, course as int),
        0 <= r <= 180_000,
{
    abs_i64(delta_angle(angle_between_points(from, to), course))
}

fn on_track_exec(world: &World, arrival: Point, course: i64, from: Point, i: usize) -> (r: bool)
    requires
        world.wf(),
        arrival.in_range(),
        from.in_range(),
        0 <= course < 360_000,
        i < world.waypoints@.len(),
    ensures
        r == on_track(world, arrival, course as int, from, i as int),
{
    let fix = world.waypoints[i].data;
    assert(546_850_800int * 546_850_800 == 299_045_797_460_640_000) by (nonlinear_arith);
    !(fix.x == from.x && fix.y == from.y) && deviation_exec(from, fix, course) <= TRACK_CONE
        && deviation_exec(fix, arrival, course) <= TRACK_CONE && distance_squared(from, fix)
        <= 299_045_797_460_640_000
}

/// Finds the waypoint that follows `from` on the track.
fn find_next_fix(world: &World, arrival: Point, course: i64, from: Point) -> (r: Option<usize>)
    requires
        world.wf(),
        arrival.in_range(),
        from.in_range(),
        0 <= course < 360_000,
    ensures
        match r {
            Some(i) => next_fix(world, arrival, course as int, from) == Some(i as int) && i
                < world.waypoints@.len(),
            None => next_fix(world, arrival, course as int, from) is None,
        },
{
    let mut best: Option<usize> = None;
    let mut best_deviation: i64 = 0;
    let mut i: usize = 0;
    while i < world.waypoints.len()
        invariant
            world.wf(),
            arrival.in_range(),
            from.in_range(),
            0 <= course < 360_000,
            i <= world.waypoints@.len(),
            match best {
                Some(b) => {
                    &&& b < i
                    &&& on_track(world, arrival, course as int, from, b as int)
                    &&& best_deviation == deviation(
                        from,
                        world.waypoints@[b as int].data,
                        course as int,
                    )
                    &&& forall|j: int|
                        0 <= j < i && #[trigger] on_track(world, arrival, course as int, from, j)
                            ==> {
                            ||| best_deviation < deviation(
                                from,
                                world.waypoints@[j].data,
                                course as int,
                            )
                            ||| (best_deviation == deviation(
                                from,
                                world.waypoints@[j].data,
                                course as int,
                            ) && b <= j)
                        }
                },
                None => forall|j: int|
                    0 <= j < i ==> !#[trigger] on_track(world, arrival, course as int, from, j),
            },
        decreases world.waypoints.len() - i,
    {
        if on_track_exec(world, arrival, course, from, i) {
            let d = deviation_exec(from, world.waypoints[i].data, course);
            let better = match best {
                Some(_) => d < best_deviation,
                None => true,
            };
            if better {
                best = Some(i);
                best_deviation = d;
            }
        }
        i = i + 1;
    }
    proof {
        match best {
            Some(b) => {
                assert(is_next_fix(world, arrival, course as int, from, b as int));
                lemma_next_fix_unique(world, arrival, course as int, from, b as int);
            },
            None => {
                if exists|c: int| is_next_fix(world, arrival, course as int, from, c) {
                    let c = choose|c: int| is_next_fix(world, arrival, course as int, from, c);
                    assert(on_track(world, arrival, course as int, from, c));
                }
            },
        }
    }
    best
}

/// The route of a flight between two airports of the world.
pub struct Navigation {
    /// The departure transition, with what is asked of the aircraft there.
    pub sid: Node<VORData>,
    /// The waypoints between the transitions.
    pub track: Seq<Node<VORData>>,
    /// The arrival transition, with its limits.
    pub star: Node<VORData>,
    /// The cruise altitude: that of eastbound flights for a course in the
    /// eastern half of the compass, else that of westbound flights.
    pub cruise: i64,
}

/// The route from the airport `d` of the world to the airport `r` for a
/// flight planned at `speed`.
pub open spec fn navigation(world: &World, d: int, r: int, speed: i64) -> Navigation {
    let departure = world.airports@[d];
    let arrival = world.airports@[r];
    let course = bearing_between(departure.center, arrival.center);
    let cruise = if course < 180_000 {
        world.levels.east
    } else {
        world.levels.west
    };
    Navigation {
        sid: Node {
            name: Name(NAME_SID),
            kind: NodeKind::VOR,
            behavior: NodeBehavior::GoTo,
            data: VORData {
                pos: moved_towards(departure.center, arrival.center, TRANSITION_DISTANCE as int),
                actions: VORActions {
                    speed_at_or_above: Some(speed),
                    altitude_at_or_above: Some(cruise),
                    frequency: Some(departure.frequencies.center),
                },
                limits: VORLimits { altitude: VORLimit::Unlimited, speed: VORLimit::Unlimited },
            },
        },
        track: track(world, arrival.center, course, departure.center, world.waypoints@.len()),
        star: Node {
            name: Name(NAME_STAR),
            kind: NodeKind::VOR,
            behavior: NodeBehavior::GoTo,
            data: VORData {
                pos: moved_towards(arrival.center, departure.center, TRANSITION_DISTANCE as int),
                actions: VORActions::empty(),
                limits: VORLimits {
                    altitude: VORLimit::AtOrBelow(world.levels.arrival),
                    speed: VORLimit::AtOrBelow(ARRIVAL_SPEED),
                },
            },
        },
        cruise,
    }
}

impl AircraftView {
    /// `ResumeOwnNavigation`: an aircraft in flight between two airports of
    /// the world gets a new plan: the departure transition, the track, the
    /// arrival transition. On a diversion the departure transition is left
    /// out and what it asks is sent to the aircraft at once.
    pub open spec fn navigating(self, world: &World, diversion: bool) -> Outcome {
        if self.state is Flying {
            match (
                world.airport_index(self.flight_plan.departing),
                world.airport_index(self.flight_plan.arriving),
            ) {
                (Some(d), Some(r)) => {
                    let nav = navigation(world, d, r, self.flight_plan.speed);
                    let lead = if diversion {
                        Seq::empty()
                    } else {
                        seq![nav.sid]
                    };
                    Outcome {
                        aircraft: AircraftView {
                            flight_plan: FlightPlanView {
                                waypoints: lead + nav.track + seq![nav.star],
                                waypoint_index: 0,
                                ..self.flight_plan
                            },
                            ..self
                        },
                        emitted: if diversion {
                            seq![
                                EventKindView::SpeedAtOrAbove(self.flight_plan.speed),
                                EventKindView::AltitudeAtOrAbove(nav.cruise),
                                EventKindView::Frequency(
                                    world.airports@[d].frequencies.center,
                                ),
                            ]
                        } else {
                            Seq::empty()
                        },
                    }
                },
                _ => Outcome::unchanged(self),
            }
        } else {
            Outcome::unchanged(self)
        }
    }
}

/// Plans the route of an aircraft in flight from its origin to its
/// destination.
pub fn resume_own_navigation(
    aircraft: &mut Aircraft,
    diversion: bool,
    events: &mut Vec<Event>,
    world: &World,
)
    requires
        old(aircraft)@.wf(),
        world.wf(),
    ensures
        final(aircraft)@ == old(aircraft)@.navigating(world, diversion).aircraft,
        events_view(final(events)@) == events_view(old(events)@) + addressed(
            old(aircraft).id,
            old(aircraft)@.navigating(world, diversion).emitted,
        ),
        final(aircraft)@.wf(),
{
    let id = aircraft.id;
    let flying = match &aircraft.state {
        AircraftState::Flying => true,
        _ => false,
    };
    let d = world.find_airport(aircraft.flight_plan.departing);
    let r = world.find_airport(aircraft.flight_plan.arriving);
    if !flying || d.is_none() || r.is_none() {
        assert(events_view(events@) =~= events_view(old(events)@) + addressed(id, Seq::empty()));
        return;
    }
    let departure = &world.airports[d.unwrap()];
    let arrival = &world.airports[r.unwrap()];
    let ghost nav = navigation(
        world,
        d.unwrap() as int,
        r.unwrap() as int,
        aircraft.flight_plan.speed,
    );
    let course = angle_between_points(departure.center, arrival.center);
    let cruise = if course < 180_000 {
        world.levels.east
    } else {
        world.levels.west
    };
    let sid = Node {
        name: Name(NAME_SID),
        kind: NodeKind::VOR,
        behavior: NodeBehavior::GoTo,
        data: VORData {
            pos: move_towards(departure.center, arrival.center, TRANSITION_DISTANCE),
            actions: VORActions {
                speed_at_or_above: Some(aircraft.flight_plan.speed),
                altitude_at_or_above: Some(cruise),
                frequency: Some(departure.frequencies.center),
            },
            limits: VORLimits::new(),
        },
    };
    let star = new_vor(
        Name(NAME_STAR),
        move_towards(arrival.center, departure.center, TRANSITION_DISTANCE),
    ).with_limits(
        VORLimits::new().with_altitude(VORLimit::AtOrBelow(world.levels.arrival)).with_speed(
            VORLimit::AtOrBelow(ARRIVAL_SPEED),
        ),
    );
    assert(sid == nav.sid);
    assert(star == nav.star);

    let mut waypoints: Vec<Node<VORData>> = Vec::new();
    if !diversion {
        waypoints.push(sid);
    }
    let ghost lead = waypoints@;
    let mut from = departure.center;
    let mut left: usize = world.waypoints.len();
    while left > 0
        invariant
            world.wf(),
            arrival.center.in_range(),
            from.in_range(),
            0 <= course < 360_000,
            left <= world.waypoints@.len(),
            lead + nav.track == waypoints@ + track(
                world,
                arrival.center,
                course as int,
                from,
                left as nat,
            ),
        decreases left,
    {
        match find_next_fix(world, arrival.center, course, from) {
            Some(i) => {
                let fix = world.waypoints[i];
                let ghost before = waypoints@;
                waypoints.push(new_vor(fix.name, fix.data));
                proof {
                    let rest = track(
                        world,
                        arrival.center,
                        course as int,
                        fix.data,
                        (left - 1) as nat,
                    );
                    assert(before + (seq![plain_vor(fix.name, fix.data)] + rest) =~= waypoints@
                        + rest);
                }
                from = fix.data;
                left = left - 1;
            },
            None => {
                proof {
                    assert(track(world, arrival.center, course as int, from, left as nat)
                        =~= Seq::empty());
                    assert(track(world, arrival.center, course as int, from, 0) =~= Seq::empty());
                }
                left = 0;
            },
        }
    }
    proof {
        assert(waypoints@ =~= lead + nav.track);
        lemma_track_in_range(
            world,
            arrival.center,
            course as int,
            departure.center,
            world.waypoints@.len(),
        );
    }
    waypoints.push(star);
    aircraft.flight_plan.clear_waypoints();
    aircraft.flight_plan.waypoints = waypoints;
    if diversion {
        assert(lead =~= Seq::empty());
        let ghost e0 = events_view(events@);
        emit(events, id, EventKind::SpeedAtOrAbove(aircraft.flight_plan.speed));
        emit(events, id, EventKind::AltitudeAtOrAbove(cruise));
        emit(events, id, EventKind::Frequency(departure.frequencies.center));
        assert(events_view(events@) =~= e0 + addressed(
            id,
            old(aircraft)@.navigating(world, diversion).emitted,
        ));
    } else {
        assert(lead =~= seq![nav.sid]);
        assert(events_view(events@) =~= events_view(old(events)@) + addressed(id, Seq::empty()));
    }
}

} // verus!
