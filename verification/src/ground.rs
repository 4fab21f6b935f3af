//! The automated ground controller: gates for arrivals, taxi clearances and
//! takeoff clearances for departures.

use vstd::prelude::*;

use crate::aircraft::{Aircraft, AircraftState, AircraftStateView, AircraftView, FlightSegment};
use crate::conflicts::MAX_TAXI_SPEED;
use crate::engine::{addressed, events_view, Engine, Event, EventView};
use crate::events::{emit, EventKind, EventKindView};
use crate::geometry::{
    abs_i64, angle_between_points, bearing_between, delta_angle, distance_squared,
    distance_squared_of, magnitude, turn_between, Point,
};
use crate::names::{Name, NAME_DEPARTURE};
use crate::pathfinder::{Line, Node, NodeBehavior, NodeKind, Pathfinder};
use crate::world::{Airport, Game, Runway, World};

verus! {

/// What the ground controller tells one aircraft.
#[derive(Clone, Copy, Debug, PartialEq, Eq)]
pub enum GroundCommand {
    Nothing,
    /// Taxi to a gate and park there.
    ToGate(Name),
    /// Taxi to the runway by way of the node next to it.
    TaxiOut(Node<()>, Node<()>),
    /// Take off from the runway.
    Depart(Name),
}

/// Whether the board says that gate `g` of the terminal `t` of an
/// airport is free.
pub open spec fn gate_open(rows: Seq<Vec<bool>>, airport: &Airport, t: int, g: int) -> bool {
    &&& 0 <= t < airport.terminals@.len()
    &&& 0 <= g < airport.terminals@[t].gates@.len()
    &&& t < rows.len()
    &&& g < rows[t]@.len()
    &&& rows[t]@[g]
}

/// Whether gate `g` of the terminal `t` is the first free gate, in the
/// order of the terminals and of their gates.
pub open spec fn is_first_open(rows: Seq<Vec<bool>>, airport: &Airport, t: int, g: int) -> bool {
    &&& gate_open(rows, airport, t, g)
    &&& forall|u: int, h: int| #[trigger]
        gate_open(rows, airport, u, h) ==> t < u || (t == u && g <= h)
}

/// The name of the first free gate of an airport.
pub open spec fn first_open_gate(rows: Seq<Vec<bool>>, airport: &Airport) -> Option<Name> {
    if exists|t: int, g: int| is_first_open(rows, airport, t, g) {
        let (t, g) = choose|t: int, g: int| is_first_open(rows, airport, t, g);
        Some(airport.terminals@[t].gates@[g].id)
    } else {
        None
    }
}

/// How far the heading of a runway lies off a course.
pub open spec fn runway_offset(runway: Runway, course: int) -> int {
    magnitude(turn_between(runway.heading as int, course))
}

/// Whether the runway `i` is the one whose heading lies nearest to the
/// course; the first of those that do.
pub open spec fn is_best_runway(runways: Seq<Runway>, course: int, i: int) -> bool {
    &&& 0 <= i < runways.len()
    &&& forall|j: int|
        0 <= j < runways.len() ==> runway_offset(runways[i], course) < runway_offset(
            #[trigger] runways[j],
            course,
        ) || (runway_offset(runways[i], course) == runway_offset(runways[j], course) && i <= j)
}

/// The runway whose heading lies nearest to a course.
pub open spec fn best_runway(runways: Seq<Runway>, course: int) -> Option<Runway> {
    if exists|i: int| is_best_runway(runways, course, i) {
        Some(runways[choose|i: int| is_best_runway(runways, course, i)])
    } else {
        None
    }
}

/// Whether the edge `k` of a graph touches the node `n`.
pub open spec fn touches(finder: &Pathfinder, k: int, n: int) -> bool {
    0 <= k < finder.edges().len() && (finder.edges()[k].0 == n || finder.edges()[k].1 == n)
}

/// Whether the edge `k` is the edge at the node `n` that meets it nearest
/// to `target`; the first of those that do.
pub open spec fn is_nearest_edge(finder: &Pathfinder, n: int, target: Point, k: int) -> bool {
    &&& touches(finder, k, n)
    &&& forall|j: int| #[trigger]
        touches(finder, j, n) ==> distance_squared_of(finder.edges()[k].2, target)
            < distance_squared_of(finder.edges()[j].2, target) || (distance_squared_of(
            finder.edges()[k].2,
            target,
        ) == distance_squared_of(finder.edges()[j].2, target) && k <= j)
}

/// The node at the far end of the edge at `n` that meets it nearest to
/// `target`.
pub open spec fn nearest_neighbor(finder: &Pathfinder, n: int, target: Point) -> Option<int> {
    if exists|k: int| is_nearest_edge(finder, n, target, k) {
        let k = choose|k: int| is_nearest_edge(finder, n, target, k);
        Some(
            if finder.edges()[k].0 == n {
                finder.edges()[k].1
            } else {
                finder.edges()[k].0
            },
        )
    } else {
        None
    }
}

/// A node of the taxi graph as a taxi destination.
pub open spec fn as_destination(node: Node<Line>) -> Node<()> {
    Node { name: node.name, kind: node.kind, behavior: node.behavior, data: () }
}

/// The taxi clearance of a parked departure. The runway is that of the
/// departure airport whose heading lies nearest to the bearing from the
/// departure airport to the arrival airport; the way to it leads over the
/// node that meets it nearest to its start, in the taxi graph of the
/// airport whose airspace the aircraft is in.
pub open spec fn taxi_out(a: AircraftView, world: &World) -> GroundCommand {
    match (
        world.airspace_index(a.airspace),
        world.airport_index(a.flight_plan.departing),
        world.airport_index(a.flight_plan.arriving),
    ) {
        (Some(here), Some(d), Some(r)) => {
            let course = bearing_between(world.airports@[d].center, world.airports@[r].center);
            match best_runway(world.airports@[d].runways@, course) {
                Some(runway) => {
                    let finder = &world.airports@[here].pathfinder;
                    match finder.index_of(runway.as_destination()) {
                        Some(n) => match nearest_neighbor(finder, n, runway.start) {
                            Some(other) => GroundCommand::TaxiOut(
                                as_destination(finder.nodes()[other]),
                                runway.as_destination(),
                            ),
                            None => GroundCommand::Nothing,
                        },
                        None => GroundCommand::Nothing,
                    }
                },
                None => GroundCommand::Nothing,
            }
        },
        _ => GroundCommand::Nothing,
    }
}

/// Whether some aircraft in the given airspace is taking off.
pub open spec fn takeoff_under_way(fleet: Seq<AircraftView>, airspace: Option<Name>) -> bool {
    exists|o: int|
        0 <= o < fleet.len() && (#[trigger] fleet[o]).airspace == airspace && fleet[o].segment
            == FlightSegment::Takeoff
}

/// Whether an aircraft taxis with no gate where it stands or on its route.
pub open spec fn gateless(a: AircraftView) -> bool {
    a.state matches AircraftStateView::Taxiing { current, waypoints, .. } && current.kind
        != NodeKind::Gate && forall|i: int|
        0 <= i < waypoints.len() ==> (#[trigger] waypoints[i]).kind != NodeKind::Gate
}

/// Whether an aircraft stands on a runway at the end of its taxi route.
pub open spec fn holding_on_runway(a: AircraftView) -> bool {
    a.state matches AircraftStateView::Taxiing { current, waypoints, .. } && current.kind
        == NodeKind::Runway && waypoints.len() == 0
}

/// What the ground controller tells the aircraft `k`. Only an aircraft in
/// an airspace whose ground is automated is told anything. One that taxis
/// in at no more than taxi speed and is not yet on its way to a gate is
/// sent to the first free gate. One that is parked and ready is cleared to
/// taxi out. One that stands on a runway at the end of its taxi out is
/// cleared for takeoff, unless a takeoff is under way in its airspace.
pub open spec fn ground_command(
    fleet: Seq<AircraftView>,
    world: &World,
    board: Seq<Vec<Vec<bool>>>,
    k: int,
) -> GroundCommand {
    let a = fleet[k];
    if a.airspace matches Some(id) && world.status_of(id).automate_ground {
        if a.segment == FlightSegment::TaxiArr && a.speed <= MAX_TAXI_SPEED {
            match world.airspace_index(a.airspace) {
                Some(here) => if gateless(a) && here < board.len() {
                    match first_open_gate(board[here]@, &world.airports@[here]) {
                        Some(gate) => GroundCommand::ToGate(gate),
                        None => GroundCommand::Nothing,
                    }
                } else {
                    GroundCommand::Nothing
                },
                None => GroundCommand::Nothing,
            }
        } else if a.segment == FlightSegment::Parked {
            if a.state is Parked {
                taxi_out(a, world)
            } else {
                GroundCommand::Nothing
            }
        } else if a.segment == FlightSegment::TaxiDep {
            if holding_on_runway(a) && !takeoff_under_way(fleet, a.airspace) {
                GroundCommand::Depart(a.state->current.name)
            } else {
                GroundCommand::Nothing
            }
        } else {
            GroundCommand::Nothing
        }
    } else {
        GroundCommand::Nothing
    }
}

/// The events that carry a command to an aircraft.
pub open spec fn command_events(id: Name, command: GroundCommand) -> Seq<EventView> {
    match command {
        GroundCommand::Nothing => Seq::empty(),
        GroundCommand::ToGate(gate) => addressed(
            id,
            seq![
                EventKindView::Taxi(
                    seq![
                        Node {
                            name: gate,
                            kind: NodeKind::Gate,
                            behavior: NodeBehavior::Park,
                            data: (),
                        },
                    ],
                ),
            ],
        ),
        GroundCommand::TaxiOut(by, runway) => addressed(
            id,
            seq![EventKindView::Taxi(seq![by, runway])],
        ),
        GroundCommand::Depart(runway) => addressed(
            id,
            seq![
                EventKindView::Takeoff(runway),
                EventKindView::NamedFrequency(Name(NAME_DEPARTURE)),
            ],
        ),
    }
}

/// What the ground controller sends out for the aircraft from `k` on, in
/// their order. It stops once it has sent an aircraft to a gate or cleared
/// one for takeoff: one of each at most in a tick.
pub open spec fn ground_events(
    fleet: Seq<AircraftView>,
    world: &World,
    board: Seq<Vec<Vec<bool>>>,
    k: int,
) -> Seq<EventView>
    decreases fleet.len() - k,
{
    if k < 0 || k >= fleet.len() {
        Seq::empty()
    } else {
        let command = ground_command(fleet, world, board, k);
        let sent = command_events(fleet[k].id, command);
        match command {
            GroundCommand::ToGate(_) => sent,
            GroundCommand::Depart(_) => sent,
            _ => sent + ground_events(fleet, world, board, k + 1),
        }
    }
}

fn find_first_open_gate(rows: &Vec<Vec<bool>>, airport: &Airport) -> (r: Option<Name>)
    ensures
        r == first_open_gate(rows@, airport),
{
    let mut t: usize = 0;
    while t < airport.terminals.len() && t < rows.len()
        invariant
            t <= airport.terminals@.len(),
            forall|u: int, h: int| 0 <= u < t ==> !#[trigger] gate_open(rows@, airport, u, h),
        decreases airport.terminals.len() - t,
    {
        let terminal = &airport.terminals[t];
        let row = &rows[t];
        let mut g: usize = 0;
        while g < terminal.gates.len() && g < row.len()
            invariant
                t < airport.terminals@.len(),
                t < rows@.len(),
                terminal == &airport.terminals@[t as int],
                row == &rows@[t as int],
                g <= terminal.gates@.len(),
                forall|u: int, h: int| 0 <= u < t ==> !#[trigger] gate_open(rows@, airport, u, h),
                forall|h: int| 0 <= h < g ==> !#[trigger] gate_open(rows@, airport, t as int, h),
            decreases terminal.gates.len() - g,
        {
            if row[g] {
                proof {
                    assert(is_first_open(rows@, airport, t as int, g as int));
                    let (t2, g2) = choose|t2: int, g2: int| is_first_open(rows@, airport, t2, g2);
                    assert(gate_open(rows@, airport, t2, g2));
                    assert(gate_open(rows@, airport, t as int, g as int));
                }
                return Some(terminal.gates[g].id);
            }
            g = g + 1;
        }
        t = t + 1;
    }
    proof {
        if exists|t2: int, g2: int| is_first_open(rows@, airport, t2, g2) {
            let (t2, g2) = choose|t2: int, g2: int| is_first_open(rows@, airport, t2, g2);
            assert(gate_open(rows@, airport, t2, g2));
        }
    }
    None
}

fn find_best_runway(airport: &Airport, course: i64) -> (r: Option<Runway>)
    requires
        airport.wf(),
        0 <= course < 360_000,
    ensures
        r == best_runway(airport.runways@, course as int),
        r matches Some(runway) ==> runway.wf(),
{
    let ghost runways = airport.runways@;
    if airport.runways.len() == 0 {
        return None;
    }
    let mut best: usize = 0;
    let mut smallest: i64 = abs_i64(delta_angle(airport.runways[0].heading, course));
    let mut i: usize = 1;
    while i < airport.runways.len()
        invariant
            airport.wf(),
            runways == airport.runways@,
            0 <= course < 360_000,
            best < i <= runways.len(),
            smallest == runway_offset(runways[best as int], course as int),
            forall|j: int|
                0 <= j < i ==> smallest < runway_offset(#[trigger] runways[j], course as int) || (
                smallest == runway_offset(runways[j], course as int) && best <= j),
        decreases airport.runways.len() - i,
    {
        let offset = abs_i64(delta_angle(airport.runways[i].heading, course));
        if offset < smallest {
            smallest = offset;
            best = i;
        }
        i = i + 1;
    }
    proof {
        assert(is_best_runway(runways, course as int, best as int));
        let c = choose|c: int| is_best_runway(runways, course as int, c);
        assert(runway_offset(runways[c], course as int) <= runway_offset(
            runways[best as int],
            course as int,
        ));
    }
    Some(airport.runways[best])
}

fn find_nearest_neighbor(finder: &Pathfinder, n: usize, target: Point) -> (r: Option<usize>)
    requires
        finder.wf(),
        target.in_range(),
    ensures
        match r {
            Some(other) => nearest_neighbor(finder, n as int, target) == Some(other as int)
                && other < finder.nodes().len(),
            None => nearest_neighbor(finder, n as int, target) is None,
        },
{
    let m = finder.edge_count();
    let mut best: Option<usize> = None;
    let mut best_other: usize = 0;
    let mut smallest: i128 = 0;
    let mut k: usize = 0;
    while k < m
        invariant
            finder.wf(),
            target.in_range(),
            k <= m == finder.edges().len(),
            match best {
                Some(b) => {
                    &&& b < k
                    &&& touches(finder, b as int, n as int)
                    &&& smallest == distance_squared_of(finder.edges()[b as int].2, target)
                    &&& best_other < finder.nodes().len()
                    &&& best_other == if finder.edges()[b as int].0 == n {
                        finder.edges()[b as int].1
                    } else {
                        finder.edges()[b as int].0
                    }
                    &&& forall|j: int|
                        0 <= j < k && #[trigger] touches(finder, j, n as int) ==> smallest
                            < distance_squared_of(finder.edges()[j].2, target) || (smallest
                            == distance_squared_of(finder.edges()[j].2, target) && b <= j)
                },
                None => forall|j: int| 0 <= j < k ==> !#[trigger] touches(finder, j, n as int),
            },
        decreases m - k,
    {
        let edge = finder.edge(k);
        if edge.0 == n || edge.1 == n {
            assert(touches(finder, k as int, n as int));
            assert(finder.edges()[k as int].2.in_range());
            let d = distance_squared(edge.2, target);
            let better = match best {
                Some(_) => d < smallest,
                None => true,
            };
            if better {
                best = Some(k);
                smallest = d;
                best_other = if edge.0 == n {
                    edge.1
                } else {
                    edge.0
                };
            }
        }
        k = k + 1;
    }
    proof {
        match best {
            Some(b) => {
                assert(is_nearest_edge(finder, n as int, target, b as int));
                let c = choose|c: int| is_nearest_edge(finder, n as int, target, c);
                assert(touches(finder, c, n as int));
                assert(touches(finder, b as int, n as int));
            },
            None => {
                if exists|c: int| is_nearest_edge(finder, n as int, target, c) {
                    let c = choose|c: int| is_nearest_edge(finder, n as int, target, c);
                    assert(touches(finder, c, n as int));
                }
            },
        }
    }
    match best {
        Some(_) => Some(best_other),
        None => None,
    }
}

fn plan_taxi_out(aircraft: &Aircraft, world: &World) -> (r: Option<(Node<()>, Node<()>)>)
    requires
        world.wf(),
    ensures
        match r {
            Some((by, runway)) => taxi_out(aircraft@, world) == GroundCommand::TaxiOut(by, runway),
            None => taxi_out(aircraft@, world) == GroundCommand::Nothing,
        },
{
    let here = match world.airport_of(aircraft.airspace) {
        Some(airport) => airport,
        None => {
            return None;
        },
    };
    let departure = match world.airport(aircraft.flight_plan.departing) {
        Some(airport) => airport,
        None => {
            return None;
        },
    };
    let arrival = match world.airport(aircraft.flight_plan.arriving) {
        Some(airport) => airport,
        None => {
            return None;
        },
    };
    proof {
        assert(world.airports@[world.airspace_index(aircraft.airspace)->0].wf());
        assert(world.airports@[world.airport_index(aircraft.flight_plan.departing)->0].wf());
        assert(world.airports@[world.airport_index(aircraft.flight_plan.arriving)->0].wf());
    }
    let course = angle_between_points(departure.center, arrival.center);
    let runway = match find_best_runway(departure, course) {
        Some(runway) => runway,
        None => {
            return None;
        },
    };
    let wanted = runway.to_destination();
    let n = match here.pathfinder.find_node(&wanted) {
        Some(n) => n,
        None => {
            return None;
        },
    };
    match find_nearest_neighbor(&here.pathfinder, n, runway.start) {
        Some(other) => {
            let node = here.pathfinder.node(other);
            Some(
                (
                    Node { name: node.name, kind: node.kind, behavior: node.behavior, data: () },
                    wanted,
                ),
            )
        },
        None => None,
    }
}

fn is_gateless(aircraft: &Aircraft) -> (r: bool)
    ensures
        r == gateless(aircraft@),
{
    match &aircraft.state {
        AircraftState::Taxiing { current, waypoints, .. } => {
            if current.kind == NodeKind::Gate {
                return false;
            }
            let mut i: usize = 0;
            while i < waypoints.len()
                invariant
                    i <= waypoints@.len(),
                    aircraft@.state is Taxiing,
                    aircraft@.state->waypoints == waypoints@,
                    aircraft@.state->current.kind != NodeKind::Gate,
                    forall|j: int| 0 <= j < i ==> (#[trigger] waypoints@[j]).kind != NodeKind::Gate,
                decreases waypoints.len() - i,
            {
                if waypoints[i].kind == NodeKind::Gate {
                    return false;
                }
                i = i + 1;
            }
            true
        },
        _ => false,
    }
}

fn runway_held(aircraft: &Aircraft) -> (r: Option<Name>)
    ensures
        r is Some == holding_on_runway(aircraft@),
        r matches Some(name) ==> name == aircraft@.state->current.name,
{
    match &aircraft.state {
        AircraftState::Taxiing { current, waypoints, .. } => {
            if current.kind == NodeKind::Runway && waypoints.len() == 0 {
                Some(current.name)
            } else {
                None
            }
        },
        _ => None,
    }
}

fn is_takeoff_under_way(game: &Game, airspace: Option<Name>) -> (r: bool)
    ensures
        r == takeoff_under_way(game@, airspace),
{
    let mut o: usize = 0;
    while o < game.aircraft.len()
        invariant
            o <= game.aircraft@.len(),
            forall|p: int|
                0 <= p < o ==> !((#[trigger] game@[p]).airspace == airspace && game@[p].segment
                    == FlightSegment::Takeoff),
        decreases game.aircraft.len() - o,
    {
        let other = &game.aircraft[o];
        assert(game@[o as int] == other@);
        let same = match (other.airspace, airspace) {
            (Some(x), Some(y)) => x == y,
            (None, None) => true,
            _ => false,
        };
        if same && other.segment == FlightSegment::Takeoff {
            return true;
        }
        o = o + 1;
    }
    false
}

/// What the ground controller tells the aircraft `k`.
fn decide(game: &Game, world: &World, board: &Vec<Vec<Vec<bool>>>, k: usize) -> (r: GroundCommand)
    requires
        world.wf(),
        k < game.aircraft@.len(),
    ensures
        r == ground_command(game@, world, board@, k as int),
{
    let aircraft = &game.aircraft[k];
    assert(game@[k as int] == aircraft@);
    let automated = match aircraft.airspace {
        Some(id) => world.airport_status(id).automate_ground,
        None => false,
    };
    if !automated {
        return GroundCommand::Nothing;
    }
    if aircraft.segment == FlightSegment::TaxiArr && aircraft.speed <= MAX_TAXI_SPEED {
        if let Some(id) = aircraft.airspace {
            if let Some(here) = world.find_airport(id) {
                if is_gateless(aircraft) && here < board.len() {
                    return match find_first_open_gate(&board[here], &world.airports[here]) {
                        Some(gate) => GroundCommand::ToGate(gate),
                        None => GroundCommand::Nothing,
                    };
                }
            }
        }
        GroundCommand::Nothing
    } else if aircraft.segment == FlightSegment::Parked {
        let parked = match &aircraft.state {
            AircraftState::Parked { .. } => true,
            _ => false,
        };
        if parked {
            match plan_taxi_out(aircraft, world) {
                Some((by, runway)) => GroundCommand::TaxiOut(by, runway),
                None => GroundCommand::Nothing,
            }
        } else {
            GroundCommand::Nothing
        }
    } else if aircraft.segment == FlightSegment::TaxiDep {
        match runway_held(aircraft) {
            Some(name) => if !is_takeoff_under_way(game, aircraft.airspace) {
                GroundCommand::Depart(name)
            } else {
                GroundCommand::Nothing
            },
            None => GroundCommand::Nothing,
        }
    } else {
        GroundCommand::Nothing
    }
}

impl Engine {
    /// Runs the automated ground controller over the aircraft in their
    /// order and appends what it tells them to `events`.
    pub fn update_auto_ground(&mut self, events: &mut Vec<Event>)
        requires
            old(self).world.wf(),
        ensures
            *final(self) == *old(self),
            events_view(final(events)@) == events_view(old(events)@) + ground_events(
                old(self).game@,
                &old(self).world,
                old(self).gates@,
                0,
            ),
    {
        let ghost fleet = self.game@;
        let ghost start = events_view(events@);
        let n = self.game.aircraft.len();
        let mut k: usize = 0;
        assert(start =~= start + Seq::<EventView>::empty());
        while k < n
            invariant
                *self == *old(self),
                self.world.wf(),
                fleet == self.game@,
                start == events_view(old(events)@),
                k <= n == fleet.len() == self.game.aircraft@.len(),
                events_view(events@) + ground_events(fleet, &self.world, self.gates@, k as int)
                    == start + ground_events(fleet, &self.world, self.gates@, 0),
            decreases n - k,
        {
            let ghost sent = events_view(events@);
            let ghost rest = ground_events(fleet, &self.world, self.gates@, k + 1);
            let id = self.game.aircraft[k].id;
            assert(fleet[k as int] == self.game.aircraft@[k as int]@);
            match decide(&self.game, &self.world, &self.gates, k) {
                GroundCommand::ToGate(gate) => {
                    let mut route: Vec<Node<()>> = Vec::new();
                    route.push(
                        Node {
                            name: gate,
                            kind: NodeKind::Gate,
                            behavior: NodeBehavior::Park,
                            data: (),
                        },
                    );
                    assert(route@ =~= seq![
                        Node {
                            name: gate,
                            kind: NodeKind::Gate,
                            behavior: NodeBehavior::Park,
                            data: (),
                        },
                    ]);
                    emit(events, id, EventKind::Taxi(route));
                    return;
                },
                GroundCommand::TaxiOut(by, runway) => {
                    let mut route: Vec<Node<()>> = Vec::new();
                    route.push(by);
                    route.push(runway);
                    assert(route@ =~= seq![by, runway]);
                    emit(events, id, EventKind::Taxi(route));
                    assert(events_view(events@) + rest =~= sent + (addressed(
                        id,
                        seq![EventKindView::Taxi(seq![by, runway])],
                    ) + rest));
                },
                GroundCommand::Depart(runway) => {
                    emit(events, id, EventKind::Takeoff(runway));
                    emit(events, id, EventKind::NamedFrequency(Name(NAME_DEPARTURE)));
                    assert(events_view(events@) =~= sent + addressed(
                        id,
                        seq![
                            EventKindView::Takeoff(runway),
                            EventKindView::NamedFrequency(Name(NAME_DEPARTURE)),
                        ],
                    ));
                    return;
                },
                GroundCommand::Nothing => {
                    assert(sent + rest =~= sent + (Seq::<EventView>::empty() + rest));
                },
            }
            k = k + 1;
        }
        assert(events_view(events@) =~= events_view(events@) + Seq::<EventView>::empty());
    }
}

/// In a world without airports the ground controller sends nothing out.
pub proof fn lemma_ground_needs_airports(
    fleet: Seq<AircraftView>,
    world: &World,
    board: Seq<Vec<Vec<bool>>>,
    k: int,
)
    requires
        world.airports@.len() == 0,
    ensures
        ground_events(fleet, world, board, k) == Seq::<EventView>::empty(),
    decreases fleet.len() - k,
{
    if 0 <= k < fleet.len() {
        lemma_ground_needs_airports(fleet, world, board, k + 1);
        match fleet[k].airspace {
            Some(id) => {
                crate::search::lemma_first_index_absent(
                    world.airports@,
                    |a: Airport| a.id == id,
                );
            },
            None => {},
        }
        assert(ground_command(fleet, world, board, k) == GroundCommand::Nothing);
        assert(ground_events(fleet, world, board, k) =~= Seq::<EventView>::empty());
    }
}

} // verus!
