//! The automated approach controller: spacing of arrivals, the landing
//! pattern, the landing clearance and the handoff to the tower.

use vstd::prelude::*;

use crate::aircraft::{
    Aircraft, AircraftState, AircraftStateView, AircraftView, FlightSegment,
};
use crate::engine::{addressed, events_view, Engine, Event, EventView};
use crate::events::{emit, EventKind, EventKindView};
use crate::geometry::{
    abs_i64, angle_between_points, bearing_between, delta_angle, distance_squared,
    distance_squared_of, magnitude, move_point, moved_point, normalized, sign3, sign_of,
    turn_between, AngleDirections, Point, NAUTICALMILES_TO_FEET,
};
use crate::names::{
    Name, NAME_BASE, NAME_CROSSWIND, NAME_DOWNWIND, NAME_STAR, NAME_TOWER, NAME_UPWIND,
};
use crate::pathfinder::Node;
use crate::search::{first_index, lemma_first_index_absent, lemma_first_index_found};
use crate::wayfinder::{new_vor, plain_vor, FlightPlanView, VORData};
use crate::world::{fleet_wf, Airport, Game, Runway, World};

verus! {

/// The distance to go of an aircraft that has no waypoint left.
pub const FAR: i128 = 1_000_000_000_000_000_000_000_000_000_000;

/// Ten nautical miles: the length of the final and of the downwind leg.
pub const PATTERN_LENGTH: i64 = 10 * NAUTICALMILES_TO_FEET;

/// Five nautical miles: the width of the pattern.
pub const PATTERN_WIDTH: i64 = 5 * NAUTICALMILES_TO_FEET;

/// The square of one and a half nautical miles: how near the final fix an
/// aircraft is cleared to land.
pub const LANDING_RANGE_SQUARED: i128 = 83_068_277_072_400;

/// The square of three and a half nautical miles: the separation from an
/// aircraft that lands.
pub const LANDING_SEPARATION_SQUARED: i128 = 452_260_619_616_400;

/// Four thousand feet: the ceiling on approach.
pub const APPROACH_ALTITUDE: i64 = 4_000_000;

/// A hundred and eighty knots: the speed limit for landing.
pub const LANDING_SPEED: i64 = 180_000;

/// Whether the controller spaces an aircraft: it is in the air, and in no
/// airspace or in that of its origin or destination with the air automated.
pub open spec fn sequenced(a: AircraftView, world: &World) -> bool {
    &&& a.segment.is_in_air()
    &&& match a.airspace {
        Some(id) => (id == a.flight_plan.arriving || id == a.flight_plan.departing)
            && world.status_of(id).automate_air,
        None => true,
    }
}

/// The stream of arrivals that an aircraft belongs to: its airspace, or its
/// destination where it is in none, and the name of its last waypoint.
pub open spec fn stream_of(a: AircraftView) -> (Name, Name) {
    (
        match a.airspace {
            Some(id) => id,
            None => a.flight_plan.arriving,
        },
        a.flight_plan.final_name(),
    )
}

/// The way that an aircraft has to go to its last waypoint.
pub open spec fn distance_to_go(a: AircraftView) -> int {
    match a.flight_plan.distance_to_last(a.pos) {
        Some(d) => d,
        None => FAR as int,
    }
}

/// Whether the aircraft `m` is ahead of the aircraft `k` in its stream:
/// nearer to the last waypoint, or as near and earlier in the fleet.
pub open spec fn ahead(fleet: Seq<AircraftView>, world: &World, k: int, m: int) -> bool {
    &&& 0 <= m < fleet.len()
    &&& m != k
    &&& sequenced(fleet[m], world)
    &&& stream_of(fleet[m]) == stream_of(fleet[k])
    &&& (distance_to_go(fleet[m]) < distance_to_go(fleet[k]) || (distance_to_go(fleet[m])
        == distance_to_go(fleet[k]) && m < k))
}

/// Whether the aircraft `m` is the one next ahead of the aircraft `k`.
pub open spec fn is_next_ahead(fleet: Seq<AircraftView>, world: &World, k: int, m: int) -> bool {
    &&& ahead(fleet, world, k, m)
    &&& forall|o: int| #[trigger]
        ahead(fleet, world, k, o) ==> distance_to_go(fleet[o]) <= distance_to_go(fleet[m])
}

/// How far behind the aircraft next ahead the aircraft `k` is; none for the
/// leader of a stream.
pub open spec fn gap_ahead(fleet: Seq<AircraftView>, world: &World, k: int) -> Option<int> {
    if exists|m: int| is_next_ahead(fleet, world, k, m) {
        Some(
            distance_to_go(fleet[k]) - distance_to_go(
                fleet[choose|m: int| is_next_ahead(fleet, world, k, m)],
            ),
        )
    } else {
        None
    }
}

/// The speed and the side-step that keep an aircraft spaced. The leader
/// flies its greatest speed on course. An aircraft less than half the
/// separation behind flies its least speed and steps aside by its greatest
/// deviation, away from its next turn. One less than the separation behind
/// flies between its least and its greatest speed, in proportion to the gap
/// beyond the half. One further behind flies its greatest speed on course.
pub open spec fn spacing(a: AircraftView, gap: Option<int>) -> (i64, i64) {
    let minima = a.minima;
    match gap {
        Some(diff) => {
            let half = minima.separation_distance / 2;
            if diff < minima.separation_distance {
                if diff < half {
                    (
                        minima.min_speed,
                        (-sign_of(a.flight_plan.turn_bias(a.pos)) * minima.max_deviation_angle) as i64,
                    )
                } else if half == 0 {
                    (minima.max_speed, 0)
                } else {
                    let speed = minima.min_speed + ((diff - half) * (minima.max_speed
                        - minima.min_speed)) / (half as int);
                    (
                        if speed > minima.max_speed {
                            minima.max_speed
                        } else {
                            speed as i64
                        },
                        0,
                    )
                }
            } else {
                (minima.max_speed, 0)
            }
        },
        None => (minima.max_speed, 0),
    }
}

/// Whether the spacing is applied to an aircraft: it is spaced and does
/// not land.
pub open spec fn spaced(a: AircraftView, world: &World) -> bool {
    sequenced(a, world) && a.segment != FlightSegment::Landing
}

/// The aircraft `k` with the side-step that spaces it.
pub open spec fn with_spacing(fleet: Seq<AircraftView>, world: &World, k: int) -> AircraftView {
    let a = fleet[k];
    if spaced(a, world) {
        AircraftView {
            flight_plan: FlightPlanView {
                course_offset: spacing(a, gap_ahead(fleet, world, k)).1,
                ..a.flight_plan
            },
            ..a
        }
    } else {
        a
    }
}

/// The fleet with the side-steps that space it.
pub open spec fn fleet_spaced(fleet: Seq<AircraftView>, world: &World) -> Seq<AircraftView> {
    Seq::new(fleet.len(), |k: int| with_spacing(fleet, world, k))
}

/// The speed commands of the first `upto` aircraft: one for each aircraft
/// to which the spacing is applied and whose speed target is not the speed
/// that spaces it.
pub open spec fn speed_commands(fleet: Seq<AircraftView>, world: &World, upto: int) -> Seq<
    EventView,
>
    decreases upto,
{
    if upto <= 0 {
        Seq::empty()
    } else {
        let before = speed_commands(fleet, world, upto - 1);
        let a = fleet[upto - 1];
        let speed = spacing(a, gap_ahead(fleet, world, upto - 1)).0;
        if spaced(a, world) && a.target.speed != speed {
            before + addressed(a.id, seq![EventKindView::Speed(speed)])
        } else {
            before
        }
    }
}

/// Whether the runway `i` counts in the choice of a landing runway: it is
/// the first of a run of runways with one heading.
pub open spec fn runway_counts(runways: Seq<Runway>, i: int) -> bool {
    0 <= i < runways.len() && (i == 0 || runways[i].heading != runways[i - 1].heading)
}

/// Whether the runway `i` is the landing runway for an arrival over
/// `from`: of the runways that count, the one that starts nearest; the
/// first of those that do.
pub open spec fn is_landing_runway(runways: Seq<Runway>, from: Point, i: int) -> bool {
    &&& runway_counts(runways, i)
    &&& forall|j: int| #[trigger]
        runway_counts(runways, j) ==> distance_squared_of(from, runways[i].start)
            < distance_squared_of(from, runways[j].start) || (distance_squared_of(
            from,
            runways[i].start,
        ) == distance_squared_of(from, runways[j].start) && i <= j)
}

/// The landing runway for an arrival over `from`.
pub open spec fn landing_runway(runways: Seq<Runway>, from: Point) -> Option<Runway> {
    if exists|i: int| is_landing_runway(runways, from, i) {
        Some(runways[choose|i: int| is_landing_runway(runways, from, i)])
    } else {
        None
    }
}

/// The landing pattern of an aircraft for a runway.
pub struct Pattern {
    pub runway: Runway,
    /// Ten miles before the runway, on its centerline.
    pub final_fix: Point,
    /// Five miles beside the final fix, on the side of the aircraft.
    pub base_fix: Point,
    /// Ten miles from the base fix along the runway: toward the runway, or
    /// away from it where the aircraft comes from behind the final fix.
    pub downwind_fix: Point,
    /// Five miles from the downwind fix, back toward the centerline.
    pub crosswind_fix: Point,
    /// Whether the downwind leg leads away from the runway.
    pub reversed: bool,
    /// The heading from the centerline to the side of the pattern.
    pub side: i64,
}

/// The landing pattern of an aircraft at `pos` for a runway.
pub open spec fn pattern_for(pos: Point, runway: Runway) -> Pattern {
    let forward = normalized(runway.heading as int);
    let backward = normalized(forward + 180_000);
    let left = normalized(forward - 90_000);
    let right = normalized(forward + 90_000);
    let final_fix = moved_point(runway.start, backward, PATTERN_LENGTH as int);
    let side = if turn_between(runway.heading as int, bearing_between(pos, final_fix)) >= 0 {
        left
    } else {
        right
    };
    let base_fix = moved_point(final_fix, side, PATTERN_WIDTH as int);
    let reversed = magnitude(turn_between(bearing_between(pos, final_fix), forward)) < 90_000;
    let downwind_fix = moved_point(
        base_fix,
        if reversed {
            backward
        } else {
            forward
        },
        PATTERN_LENGTH as int,
    );
    let crosswind_fix = moved_point(downwind_fix, side, -PATTERN_WIDTH as int);
    Pattern {
        runway,
        final_fix,
        base_fix,
        downwind_fix,
        crosswind_fix,
        reversed,
        side: side as i64,
    }
}

impl Pattern {
    /// The waypoints of the pattern: crosswind, downwind, base and final,
    /// the last under the name of the runway.
    pub open spec fn waypoints(self) -> Seq<Node<VORData>> {
        seq![
            plain_vor(Name(NAME_CROSSWIND), self.crosswind_fix),
            plain_vor(
                Name(
                    if self.reversed {
                        NAME_UPWIND
                    } else {
                        NAME_DOWNWIND
                    },
                ),
                self.downwind_fix,
            ),
            plain_vor(Name(NAME_BASE), self.base_fix),
            plain_vor(self.runway.id, self.final_fix),
        ]
    }

    /// The waypoints that take an aircraft round once more: a downwind fix
    /// five miles past the start of the runway and a crosswind fix five
    /// miles beside it.
    pub open spec fn once_more(self) -> Seq<Node<VORData>> {
        let downwind = moved_point(
            self.runway.start,
            normalized(self.runway.heading as int),
            PATTERN_WIDTH as int,
        );
        seq![
            plain_vor(Name(NAME_DOWNWIND), downwind),
            plain_vor(
                Name(NAME_CROSSWIND),
                moved_point(downwind, self.side as int, PATTERN_WIDTH as int),
            ),
        ]
    }
}

/// The arrival transition of an aircraft: the first waypoint of its plan
/// under the name "STAR".
pub open spec fn star_of(a: AircraftView) -> Option<Node<VORData>> {
    match first_index(a.flight_plan.waypoints, |w: Node<VORData>| w.name == Name(NAME_STAR)) {
        Some(i) => Some(a.flight_plan.waypoints[i]),
        None => None,
    }
}

/// Whether another aircraft lands in the airspace of the aircraft `k`
/// within the landing separation of it.
pub open spec fn landing_traffic(fleet: Seq<AircraftView>, k: int) -> bool {
    exists|o: int|
        0 <= o < fleet.len() && (#[trigger] fleet[o]).id != fleet[k].id && fleet[o].airspace
            == fleet[k].airspace && fleet[o].segment == FlightSegment::Landing
            && distance_squared_of(fleet[o].pos, fleet[k].pos) < LANDING_SEPARATION_SQUARED
}

/// Whether an aircraft flies to the final fix of a pattern and is within
/// landing range of it.
pub open spec fn at_final_fix(a: AircraftView, pattern: Pattern) -> bool {
    &&& !a.flight_plan.at_end()
    &&& a.flight_plan.waypoints[a.flight_plan.waypoint_index].data.pos == pattern.final_fix
    &&& distance_squared_of(pattern.final_fix, a.pos) <= LANDING_RANGE_SQUARED
}

/// What the controller tells an aircraft on approach for which a pattern
/// is laid out. At the end of its plan it gets the pattern. With a target
/// above the approach ceiling it is told to come down. At the final fix it
/// is cleared to land at landing speed, or sent round once more where
/// another aircraft lands too near.
pub open spec fn pattern_notice(fleet: Seq<AircraftView>, k: int, pattern: Pattern) -> Seq<
    EventKindView,
> {
    let a = fleet[k];
    let plan = if a.flight_plan.at_end() {
        seq![EventKindView::AmendAndFollow(pattern.waypoints())]
    } else {
        Seq::empty()
    };
    let ceiling = if a.target.altitude > APPROACH_ALTITUDE {
        seq![EventKindView::Altitude(APPROACH_ALTITUDE)]
    } else {
        Seq::empty()
    };
    let landing = if at_final_fix(a, pattern) {
        if landing_traffic(fleet, k) {
            seq![EventKindView::AmendAndFollow(pattern.once_more())]
        } else {
            seq![
                EventKindView::SpeedAtOrBelow(LANDING_SPEED),
                EventKindView::Land(pattern.runway.id),
            ]
        }
    } else {
        Seq::empty()
    };
    plan + ceiling + landing
}

/// The pattern that is laid out for the aircraft `k`: for the landing
/// runway of the airport whose airspace it is in, seen from its arrival
/// transition; none where it has no such transition or the airport no
/// runway.
pub open spec fn pattern_of(a: AircraftView, world: &World) -> Option<Pattern> {
    match (world.airspace_index(a.airspace), star_of(a)) {
        (Some(here), Some(star)) => match landing_runway(
            world.airports@[here].runways@,
            star.data.pos,
        ) {
            Some(runway) => Some(pattern_for(a.pos, runway)),
            None => None,
        },
        _ => None,
    }
}

/// What the controller tells the aircraft `k`: on approach in an airspace
/// with the air automated, what belongs to its pattern; landing and
/// established, to call the tower.
pub open spec fn approach_notice(fleet: Seq<AircraftView>, world: &World, k: int) -> Seq<
    EventKindView,
> {
    let a = fleet[k];
    if a.segment == FlightSegment::Approach && (a.airspace matches Some(id) && world.status_of(
        id,
    ).automate_air) {
        match pattern_of(a, world) {
            Some(pattern) => pattern_notice(fleet, k, pattern),
            None => Seq::empty(),
        }
    } else if a.segment == FlightSegment::Landing {
        if a.state matches AircraftStateView::Landing { state, .. } && state.is_established() {
            seq![EventKindView::NamedFrequency(Name(NAME_TOWER))]
        } else {
            Seq::empty()
        }
    } else {
        Seq::empty()
    }
}

/// What the controller tells the first `upto` aircraft, in their order.
pub open spec fn approach_notices(fleet: Seq<AircraftView>, world: &World, upto: int) -> Seq<
    EventView,
>
    decreases upto,
{
    if upto <= 0 {
        Seq::empty()
    } else {
        approach_notices(fleet, world, upto - 1) + addressed(
            fleet[upto - 1].id,
            approach_notice(fleet, world, upto - 1),
        )
    }
}

/// The fleet after the approach controller: spaced, unless the world has
/// no airport, where the controller does nothing.
pub open spec fn approach_fleet(fleet: Seq<AircraftView>, world: &World) -> Seq<AircraftView> {
    if world.airports@.len() == 0 {
        fleet
    } else {
        fleet_spaced(fleet, world)
    }
}

/// What the approach controller sends out: the speed commands of the
/// spacing, then what it tells each aircraft, spaced; nothing where the
/// world has no airport.
pub open spec fn approach_events(fleet: Seq<AircraftView>, world: &World) -> Seq<EventView> {
    if world.airports@.len() == 0 {
        Seq::empty()
    } else {
        speed_commands(fleet, world, fleet.len() as int) + approach_notices(
            fleet_spaced(fleet, world),
            world,
            fleet.len() as int,
        )
    }
}

fn is_sequenced(a: &Aircraft, world: &World) -> (r: bool)
    ensures
        r == sequenced(a@, world),
{
    if !a.segment.in_air() {
        return false;
    }
    match a.airspace {
        Some(id) => (id == a.flight_plan.arriving || id == a.flight_plan.departing)
            && world.airport_status(id).automate_air,
        None => true,
    }
}

fn stream(a: &Aircraft) -> (r: (Name, Name))
    requires
        a@.wf(),
    ensures
        r == stream_of(a@),
{
    (
        match a.airspace {
            Some(id) => id,
            None => a.flight_plan.arriving,
        },
        a.flight_plan.final_name(),
    )
}

fn to_go(a: &Aircraft) -> (r: i128)
    requires
        a@.wf(),
    ensures
        r == distance_to_go(a@),
        0 <= r <= 3_000_000_000_000 * 0x1_0000_0000_0000_0000,
{
    match a.flight_plan.distance_to_last(a.pos) {
        Some(d) => {
            assert(3_000_000_000_000 * a.flight_plan.waypoints.len() <= 3_000_000_000_000
                * 0x1_0000_0000_0000_0000) by (nonlinear_arith)
                requires
                    a.flight_plan.waypoints.len() <= 0x1_0000_0000_0000_0000,
            ;
            d
        },
        None => FAR,
    }
}

fn is_ahead(game: &Game, world: &World, k: usize, m: usize) -> (r: bool)
    requires
        fleet_wf(game@),
        k < game.aircraft@.len(),
        m < game.aircraft@.len(),
    ensures
        r == ahead(game@, world, k as int, m as int),
{
    let a = &game.aircraft[k];
    let b = &game.aircraft[m];
    assert(game@[k as int] == a@ && game@[m as int] == b@);
    assert(game@[k as int].wf() && game@[m as int].wf());
    if m == k || !is_sequenced(b, world) {
        return false;
    }
    let sa = stream(a);
    let sb = stream(b);
    if !(sa.0 == sb.0 && sa.1 == sb.1) {
        return false;
    }
    let da = to_go(a);
    let db = to_go(b);
    db < da || (db == da && m < k)
}

/// How far behind the aircraft next ahead the aircraft `k` is.
fn find_gap(game: &Game, world: &World, k: usize) -> (r: Option<i128>)
    requires
        fleet_wf(game@),
        k < game.aircraft@.len(),
    ensures
        match r {
            Some(gap) => gap_ahead(game@, world, k as int) == Some(gap as int),
            None => gap_ahead(game@, world, k as int) is None,
        },
{
    let ghost fleet = game@;
    let n = game.aircraft.len();
    let mut best: Option<i128> = None;
    let ghost mut witness: int = 0;
    let mut m: usize = 0;
    while m < n
        invariant
            fleet == game@,
            fleet_wf(fleet),
            m <= n == game.aircraft@.len() == fleet.len(),
            k < n,
            match best {
                Some(d) => {
                    &&& ahead(fleet, world, k as int, witness)
                    &&& 0 <= d <= 3_000_000_000_000 * 0x1_0000_0000_0000_0000
                    &&& d == distance_to_go(fleet[witness])
                    &&& forall|o: int|
                        0 <= o < m && #[trigger] ahead(fleet, world, k as int, o) ==> distance_to_go(
                            fleet[o],
                        ) <= d
                },
                None => forall|o: int| 0 <= o < m ==> !#[trigger] ahead(fleet, world, k as int, o),
            },
        decreases n - m,
    {
        if is_ahead(game, world, k, m) {
            assert(fleet[m as int] == game.aircraft@[m as int]@);
            assert(fleet[m as int].wf());
            let d = to_go(&game.aircraft[m]);
            let better = match best {
                Some(b) => d > b,
                None => true,
            };
            if better {
                best = Some(d);
                proof {
                    witness = m as int;
                }
            }
        }
        m = m + 1;
    }
    assert(fleet[k as int] == game.aircraft@[k as int]@);
    assert(fleet[k as int].wf());
    match best {
        Some(d) => {
            proof {
                assert(is_next_ahead(fleet, world, k as int, witness));
                let c = choose|c: int| is_next_ahead(fleet, world, k as int, c);
                assert(ahead(fleet, world, k as int, c));
                assert(ahead(fleet, world, k as int, witness));
            }
            Some(to_go(&game.aircraft[k]) - d)
        },
        None => {
            proof {
                if exists|c: int| is_next_ahead(fleet, world, k as int, c) {
                    let c = choose|c: int| is_next_ahead(fleet, world, k as int, c);
                    assert(ahead(fleet, world, k as int, c));
                }
            }
            None
        },
    }
}

fn spacing_exec(a: &Aircraft, gap: Option<i128>) -> (r: (i64, i64))
    requires
        a@.wf(),
    ensures
        r == spacing(
            a@,
            match gap {
                Some(g) => Some(g as int),
                None => None,
            },
        ),
        0 <= r.0 <= crate::world::SPEED_LIMIT,
        -a.minima.max_deviation_angle <= r.1 <= a.minima.max_deviation_angle,
{
    let minima = a.minima;
    match gap {
        Some(diff) => {
            let half: i64 = minima.separation_distance / 2;
            if diff < minima.separation_distance as i128 {
                if diff < half as i128 {
                    let direction = sign3(a.flight_plan.turn_bias(a.pos));
                    let offset = if direction > 0 {
                        -minima.max_deviation_angle
                    } else if direction < 0 {
                        minima.max_deviation_angle
                    } else {
                        0
                    };
                    assert(offset == -sign_of(a@.flight_plan.turn_bias(a.pos))
                        * minima.max_deviation_angle) by (nonlinear_arith)
                        requires
                            direction == sign_of(a@.flight_plan.turn_bias(a.pos)),
                            -1 <= direction <= 1,
                            offset == if direction > 0 {
                                -minima.max_deviation_angle
                            } else if direction < 0 {
                                minima.max_deviation_angle as int
                            } else {
                                0
                            },
                    ;
                    (minima.min_speed, offset)
                } else if half == 0 {
                    (minima.max_speed, 0)
                } else {
                    let range: i128 = (minima.max_speed - minima.min_speed) as i128;
                    let over: i128 = diff - half as i128;
                    assert(0 <= over * range <= 1_000_000_000_000 * 10_000_000) by (nonlinear_arith)
                        requires
                            0 <= over <= 1_000_000_000_000,
                            0 <= range <= 10_000_000,
                    ;
                    let gain: i128 = (over * range) / half as i128;
                    assert(0 <= gain <= over * range) by (nonlinear_arith)
                        requires
                            gain == (over * range) / (half as int),
                            0 <= over * range,
                            half >= 1,
                    ;
                    let speed: i128 = minima.min_speed as i128 + gain;
                    if speed > minima.max_speed as i128 {
                        (minima.max_speed, 0)
                    } else {
                        (speed as i64, 0)
                    }
                }
            } else {
                (minima.max_speed, 0)
            }
        },
        None => (minima.max_speed, 0),
    }
}

fn find_star(a: &Aircraft) -> (r: Option<Node<VORData>>)
    ensures
        r == star_of(a@),
{
    let ghost wanted = |w: Node<VORData>| w.name == Name(NAME_STAR);
    let mut i: usize = 0;
    while i < a.flight_plan.waypoints.len()
        invariant
            i <= a.flight_plan.waypoints@.len(),
            wanted == (|w: Node<VORData>| w.name == Name(NAME_STAR)),
            forall|j: int| 0 <= j < i ==> !wanted(#[trigger] a.flight_plan.waypoints@[j]),
        decreases a.flight_plan.waypoints.len() - i,
    {
        if a.flight_plan.waypoints[i].name.0 == NAME_STAR {
            proof {
                lemma_first_index_found(a.flight_plan.waypoints@, wanted, i as int);
            }
            return Some(a.flight_plan.waypoints[i]);
        }
        i = i + 1;
    }
    proof {
        lemma_first_index_absent(a.flight_plan.waypoints@, wanted);
    }
    None
}

fn find_landing_runway(airport: &Airport, from: Point) -> (r: Option<Runway>)
    requires
        airport.wf(),
        from.in_range(),
    ensures
        r == landing_runway(airport.runways@, from),
        r matches Some(runway) ==> runway.wf(),
{
    let ghost runways = airport.runways@;
    if airport.runways.len() == 0 {
        proof {
            if exists|c: int| is_landing_runway(runways, from, c) {
                let c = choose|c: int| is_landing_runway(runways, from, c);
                assert(runway_counts(runways, c));
            }
        }
        return None;
    }
    let mut best: usize = 0;
    let mut smallest: i128 = distance_squared(from, airport.runways[0].start);
    let mut i: usize = 1;
    assert(runway_counts(runways, 0));
    while i < airport.runways.len()
        invariant
            airport.wf(),
            from.in_range(),
            runways == airport.runways@,
            best < i <= runways.len(),
            runway_counts(runways, best as int),
            smallest == distance_squared_of(from, runways[best as int].start),
            forall|j: int|
                0 <= j < i && #[trigger] runway_counts(runways, j) ==> smallest
                    < distance_squared_of(from, runways[j].start) || (smallest
                    == distance_squared_of(from, runways[j].start) && best <= j),
        decreases airport.runways.len() - i,
    {
        if airport.runways[i].heading != airport.runways[i - 1].heading {
            let d = distance_squared(from, airport.runways[i].start);
            if d < smallest {
                smallest = d;
                best = i;
            }
        }
        i = i + 1;
    }
    proof {
        assert(is_landing_runway(runways, from, best as int));
        let c = choose|c: int| is_landing_runway(runways, from, c);
        assert(runway_counts(runways, c));
        assert(runway_counts(runways, best as int));
    }
    Some(airport.runways[best])
}

/// Lays out the landing pattern of an aircraft at `pos` for a runway.
pub fn lay_pattern(pos: Point, runway: Runway) -> (r: Pattern)
    requires
        pos.in_range(),
        runway.wf(),
    ensures
        r == pattern_for(pos, runway),
        r.final_fix.in_range(),
        r.base_fix.in_range(),
        r.downwind_fix.in_range(),
        r.crosswind_fix.in_range(),
        0 <= r.side < 360_000,
{
    let directions = AngleDirections::new(runway.heading);
    let final_fix = move_point(runway.start, directions.backward, PATTERN_LENGTH);
    let side = if delta_angle(runway.heading, angle_between_points(pos, final_fix)) >= 0 {
        directions.left
    } else {
        directions.right
    };
    let base_fix = move_point(final_fix, side, PATTERN_WIDTH);
    let reversed = abs_i64(
        delta_angle(angle_between_points(pos, final_fix), directions.forward),
    ) < 90_000;
    let downwind_fix = move_point(
        base_fix,
        if reversed {
            directions.backward
        } else {
            directions.forward
        },
        PATTERN_LENGTH,
    );
    let crosswind_fix = move_point(downwind_fix, side, -PATTERN_WIDTH);
    Pattern { runway, final_fix, base_fix, downwind_fix, crosswind_fix, reversed, side }
}

fn pattern_route(pattern: &Pattern) -> (r: Vec<Node<VORData>>)
    ensures
        r@ == pattern.waypoints(),
{
    let mut route: Vec<Node<VORData>> = Vec::new();
    route.push(new_vor(Name(NAME_CROSSWIND), pattern.crosswind_fix));
    route.push(
        new_vor(
            Name(
                if pattern.reversed {
                    NAME_UPWIND
                } else {
                    NAME_DOWNWIND
                },
            ),
            pattern.downwind_fix,
        ),
    );
    route.push(new_vor(Name(NAME_BASE), pattern.base_fix));
    route.push(new_vor(pattern.runway.id, pattern.final_fix));
    assert(route@ =~= pattern.waypoints());
    route
}

fn once_more_route(pattern: &Pattern) -> (r: Vec<Node<VORData>>)
    requires
        pattern.runway.wf(),
    ensures
        r@ == pattern.once_more(),
{
    let forward = crate::geometry::normalize_angle(pattern.runway.heading);
    let downwind = move_point(pattern.runway.start, forward, PATTERN_WIDTH);
    let mut route: Vec<Node<VORData>> = Vec::new();
    route.push(new_vor(Name(NAME_DOWNWIND), downwind));
    route.push(new_vor(Name(NAME_CROSSWIND), move_point(downwind, pattern.side, PATTERN_WIDTH)));
    assert(route@ =~= pattern.once_more());
    route
}

fn has_landing_traffic(game: &Game, k: usize) -> (r: bool)
    requires
        fleet_wf(game@),
        k < game.aircraft@.len(),
    ensures
        r == landing_traffic(game@, k as int),
{
    let ghost fleet = game@;
    let a = &game.aircraft[k];
    assert(fleet[k as int] == a@);
    assert(fleet[k as int].wf());
    let mut o: usize = 0;
    while o < game.aircraft.len()
        invariant
            fleet == game@,
            fleet_wf(fleet),
            o <= game.aircraft@.len(),
            a@ == fleet[k as int],
            a@.wf(),
            forall|p: int|
                0 <= p < o ==> !((#[trigger] fleet[p]).id != a@.id && fleet[p].airspace
                    == a@.airspace && fleet[p].segment == FlightSegment::Landing
                    && distance_squared_of(fleet[p].pos, a@.pos) < LANDING_SEPARATION_SQUARED),
        decreases game.aircraft.len() - o,
    {
        let b = &game.aircraft[o];
        assert(fleet[o as int] == b@);
        assert(fleet[o as int].wf());
        let same = match (b.airspace, a.airspace) {
            (Some(x), Some(y)) => x == y,
            (None, None) => true,
            _ => false,
        };
        if b.id != a.id && same && b.segment == FlightSegment::Landing && distance_squared(
            b.pos,
            a.pos,
        ) < LANDING_SEPARATION_SQUARED {
            return true;
        }
        o = o + 1;
    }
    false
}

/// Lays out the pattern for an aircraft on approach.
fn find_pattern(a: &Aircraft, world: &World) -> (r: Option<Pattern>)
    requires
        a@.wf(),
        world.wf(),
    ensures
        r == pattern_of(a@, world),
        r matches Some(pattern) ==> pattern.runway.wf() && pattern.final_fix.in_range(),
{
    let airport = match world.airport_of(a.airspace) {
        Some(airport) => airport,
        None => {
            return None;
        },
    };
    assert(world.airports@[world.airspace_index(a.airspace)->0].wf());
    let star = match find_star(a) {
        Some(star) => star,
        None => {
            return None;
        },
    };
    proof {
        crate::search::lemma_first_index_is_first(
            a@.flight_plan.waypoints,
            |w: Node<VORData>| w.name == Name(NAME_STAR),
        );
    }
    match find_landing_runway(airport, star.data.pos) {
        Some(runway) => Some(lay_pattern(a.pos, runway)),
        None => None,
    }
}

/// Tells the aircraft `k` what belongs to its pattern.
fn notify_pattern(game: &Game, k: usize, pattern: &Pattern, events: &mut Vec<Event>)
    requires
        fleet_wf(game@),
        k < game.aircraft@.len(),
        pattern.runway.wf(),
        pattern.final_fix.in_range(),
    ensures
        events_view(final(events)@) == events_view(old(events)@) + addressed(
            game@[k as int].id,
            pattern_notice(game@, k as int, *pattern),
        ),
{
    let a = &game.aircraft[k];
    let id = a.id;
    assert(game@[k as int] == a@);
    assert(game@[k as int].wf());
    let ghost start = events_view(events@);
    let ghost mut sent: Seq<EventKindView> = Seq::empty();
    assert(start =~= start + addressed(id, sent));
    if a.flight_plan.at_end() {
        emit(events, id, EventKind::AmendAndFollow(pattern_route(pattern)));
        proof {
            sent = sent + seq![EventKindView::AmendAndFollow(pattern.waypoints())];
            assert(events_view(events@) =~= start + addressed(id, sent));
        }
    }
    if a.target.altitude > APPROACH_ALTITUDE {
        emit(events, id, EventKind::Altitude(APPROACH_ALTITUDE));
        proof {
            sent = sent + seq![EventKindView::Altitude(APPROACH_ALTITUDE)];
            assert(events_view(events@) =~= start + addressed(id, sent));
        }
    }
    if let Some(waypoint) = a.flight_plan.waypoint() {
        if waypoint.data.pos == pattern.final_fix && distance_squared(pattern.final_fix, a.pos)
            <= LANDING_RANGE_SQUARED {
            if has_landing_traffic(game, k) {
                emit(events, id, EventKind::AmendAndFollow(once_more_route(pattern)));
                proof {
                    sent = sent + seq![EventKindView::AmendAndFollow(pattern.once_more())];
                    assert(events_view(events@) =~= start + addressed(id, sent));
                }
            } else {
                emit(events, id, EventKind::SpeedAtOrBelow(LANDING_SPEED));
                emit(events, id, EventKind::Land(pattern.runway.id));
                proof {
                    sent = sent + seq![
                        EventKindView::SpeedAtOrBelow(LANDING_SPEED),
                        EventKindView::Land(pattern.runway.id),
                    ];
                    assert(events_view(events@) =~= start + addressed(id, sent));
                }
            }
        }
    }
    assert(sent =~= pattern_notice(game@, k as int, *pattern));
}

/// Tells the aircraft `k` what the approach controller has for it.
fn notify(game: &Game, world: &World, k: usize, events: &mut Vec<Event>)
    requires
        fleet_wf(game@),
        world.wf(),
        k < game.aircraft@.len(),
    ensures
        events_view(final(events)@) == events_view(old(events)@) + addressed(
            game@[k as int].id,
            approach_notice(game@, world, k as int),
        ),
{
    let a = &game.aircraft[k];
    let id = a.id;
    assert(game@[k as int] == a@);
    assert(game@[k as int].wf());
    let automated = match a.airspace {
        Some(id) => world.airport_status(id).automate_air,
        None => false,
    };
    if a.segment == FlightSegment::Approach && automated {
        if let Some(pattern) = find_pattern(a, world) {
            notify_pattern(game, k, &pattern, events);
            return;
        }
    } else if a.segment == FlightSegment::Landing {
        let established = match &a.state {
            AircraftState::Landing { state, .. } => state.established(),
            _ => false,
        };
        if established {
            emit(events, id, EventKind::NamedFrequency(Name(NAME_TOWER)));
            return;
        }
    }
    assert(events_view(events@) =~= events_view(old(events)@) + addressed(id, Seq::empty()));
}

impl Engine {
    /// Runs the automated approach controller: spaces the arrivals of each
    /// stream, then lays out landing patterns, clears aircraft to land and
    /// hands landing aircraft to the tower, and appends what it tells the
    /// aircraft to `events`. In a world without airports it does nothing.
    pub fn update_auto_approach(&mut self, events: &mut Vec<Event>)
        requires
            old(self).world.wf(),
            fleet_wf(old(self).game@),
        ensures
            final(self).game@ == approach_fleet(old(self).game@, &old(self).world),
            events_view(final(events)@) == events_view(old(events)@) + approach_events(
                old(self).game@,
                &old(self).world,
            ),
            final(self).same_but_game(old(self)),
            fleet_wf(final(self).game@),
    {
        if self.world.airports.len() == 0 {
            assert(events_view(events@) =~= events_view(events@) + Seq::<EventView>::empty());
            return;
        }
        let ghost fleet = self.game@;
        let ghost start = events_view(events@);
        let n = self.game.aircraft.len();
        let mut plan: Vec<(bool, i64, i64)> = Vec::new();
        let mut k: usize = 0;
        while k < n
            invariant
                *self == *old(self),
                self.game@ == fleet,
                fleet_wf(fleet),
                k <= n == fleet.len() == self.game.aircraft@.len(),
                plan@.len() == k,
                forall|i: int|
                    0 <= i < k ==> {
                        let p = #[trigger] plan@[i];
                        &&& p.0 == spaced(fleet[i], &self.world)
                        &&& (p.1, p.2) == spacing(fleet[i], gap_ahead(fleet, &self.world, i))
                        &&& -fleet[i].minima.max_deviation_angle <= p.2
                            <= fleet[i].minima.max_deviation_angle
                    },
            decreases n - k,
        {
            let a = &self.game.aircraft[k];
            assert(fleet[k as int] == a@);
            assert(fleet[k as int].wf());
            let applies = is_sequenced(a, &self.world) && a.segment != FlightSegment::Landing;
            let gap = find_gap(&self.game, &self.world, k);
            let (speed, offset) = spacing_exec(a, gap);
            plan.push((applies, speed, offset));
            k = k + 1;
        }
        let mut k: usize = 0;
        assert(start =~= start + speed_commands(fleet, &self.world, 0));
        while k < n
            invariant
                k <= n == fleet.len() == self.game.aircraft@.len() == plan@.len(),
                fleet == old(self).game@,
                fleet_wf(fleet),
                self.same_but_game(old(self)),
                forall|i: int|
                    0 <= i < n ==> {
                        let p = #[trigger] plan@[i];
                        &&& p.0 == spaced(fleet[i], &self.world)
                        &&& (p.1, p.2) == spacing(fleet[i], gap_ahead(fleet, &self.world, i))
                        &&& -fleet[i].minima.max_deviation_angle <= p.2
                            <= fleet[i].minima.max_deviation_angle
                    },
                forall|i: int| 0 <= i < k ==> self.game@[i] == with_spacing(fleet, &self.world, i),
                forall|i: int| k <= i < n ==> self.game@[i] == fleet[i],
                events_view(events@) == start + speed_commands(fleet, &self.world, k as int),
            decreases n - k,
        {
            let ghost before = self.game@;
            let ghost sent = events_view(events@);
            assert(before[k as int] == self.game.aircraft@[k as int]@);
            let (applies, speed, offset) = plan[k];
            assert(plan@[k as int] == (applies, speed, offset));
            let aircraft = &mut self.game.aircraft[k];
            if applies {
                if aircraft.flight_plan.course_offset != offset {
                    aircraft.flight_plan.course_offset = offset;
                }
                if aircraft.target.speed != speed {
                    emit(events, aircraft.id, EventKind::Speed(speed));
                    assert(events_view(events@) =~= start + (speed_commands(
                        fleet,
                        &self.world,
                        k as int,
                    ) + addressed(fleet[k as int].id, seq![EventKindView::Speed(speed)])));
                }
            }
            proof {
                assert forall|i: int| 0 <= i < k + 1 implies self.game@[i] == with_spacing(
                    fleet,
                    &self.world,
                    i,
                ) by {
                    if i < k {
                        assert(self.game@[i] == before[i]);
                    }
                }
                assert forall|i: int| k + 1 <= i < n implies self.game@[i] == fleet[i] by {
                    assert(self.game@[i] == before[i]);
                }
            }
            k = k + 1;
        }
        assert(self.game@ =~= fleet_spaced(fleet, &self.world));
        let ghost after = self.game@;
        let ghost middle = events_view(events@);
        assert(fleet_wf(after)) by {
            assert forall|i: int| 0 <= i < after.len() implies (#[trigger] after[i]).wf() by {
                assert(fleet[i].wf());
                assert(plan@[i].0 == spaced(fleet[i], &self.world));
            }
        }
        let mut k: usize = 0;
        assert(middle =~= middle + approach_notices(after, &self.world, 0));
        while k < n
            invariant
                k <= n == after.len() == self.game.aircraft@.len(),
                self.game@ == after,
                fleet_wf(after),
                self.world.wf(),
                self.same_but_game(old(self)),
                events_view(events@) == middle + approach_notices(after, &self.world, k as int),
            decreases n - k,
        {
            let ghost sent = approach_notices(after, &self.world, k as int);
            notify(&self.game, &self.world, k, events);
            assert(events_view(events@) =~= middle + (sent + addressed(
                after[k as int].id,
                approach_notice(after, &self.world, k as int),
            )));
            k = k + 1;
        }
        assert(events_view(events@) =~= start + (speed_commands(fleet, &self.world, n as int)
            + approach_notices(after, &self.world, n as int)));
    }
}

} // verus!
