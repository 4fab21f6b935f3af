//! Planning the taxi route of an aircraft on the ground.

use vstd::prelude::*;

use crate::aircraft::{Aircraft, AircraftState, AircraftStateView, AircraftView, TaxiingState};
use crate::engine::{addressed, events_view, Event};
use crate::events::{emit, EventKind, EventKindView, Outcome};
use crate::geometry::Point;
use crate::pathfinder::{Node, NodeBehavior, NodeKind, PathView, Pathfinder};
use crate::world::{Airport, World};

verus! {

/// Where an aircraft stands while its taxi route is planned.
pub struct TaxiStand {
    pub place: Node<()>,
    pub pos: Point,
    pub heading: i64,
}

/// A node without its payload.
pub open spec fn bare(node: Node<Point>) -> Node<()> {
    Node { name: node.name, kind: node.kind, behavior: node.behavior, data: () }
}

/// Where the aircraft stands after the legs planned so far.
pub open spec fn stand_after(start: TaxiStand, legs: Seq<PathView>) -> TaxiStand {
    if legs.len() == 0 {
        start
    } else {
        TaxiStand {
            place: bare(legs.last().path.last()),
            pos: legs.last().final_pos,
            heading: legs.last().final_heading,
        }
    }
}

/// Whether `legs` are routes to the first destinations in turn, each from
/// where the one before it ends, each to a destination that can be reached
/// from there and each with the fewest steps.
pub open spec fn legs_found(
    finder: &Pathfinder,
    start: TaxiStand,
    destinations: Seq<Node<()>>,
    legs: Seq<PathView>,
) -> bool
    decreases legs.len(),
{
    &&& legs.len() <= destinations.len()
    &&& legs.len() > 0 ==> {
        let stand = stand_after(start, legs.drop_last());
        &&& legs_found(finder, start, destinations, legs.drop_last())
        &&& legs.last().path.len() > 0
        &&& finder.routable(stand.place, destinations[legs.len() - 1])
        &&& finder.is_route(
            stand.place,
            destinations[legs.len() - 1],
            stand.pos,
            stand.heading,
            legs.last(),
        )
        &&& finder.fewest_steps(
            stand.place,
            destinations[legs.len() - 1],
            legs.last().path.len() as int,
        )
    }
}

/// The steps of all legs, one leg after the other.
pub open spec fn joined(legs: Seq<PathView>) -> Seq<Node<Point>>
    decreases legs.len(),
{
    if legs.len() == 0 {
        Seq::empty()
    } else {
        joined(legs.drop_last()) + legs.last().path
    }
}

/// The destinations that are left once the place where the aircraft stands
/// is taken off their front.
pub open spec fn remaining(destinations: Seq<Node<()>>, current: Node<Point>) -> Seq<Node<()>> {
    if destinations.len() > 0 && destinations[0].same_place(current) {
        destinations.drop_first()
    } else {
        destinations
    }
}

/// The steps of a taxi route with its last step made exact: where the
/// route ends at a gate of the airport, a step follows that parks the
/// aircraft at the position of that gate.
pub open spec fn parked_at_gate(steps: Seq<Node<Point>>, airport: Option<Airport>) -> Seq<Node<Point>> {
    if steps.len() > 0 && steps.last().kind == NodeKind::Gate {
        match airport {
            Some(airport) => match airport.gate_named(steps.last().name) {
                Some(gate) => steps.push(
                    Node {
                        name: steps.last().name,
                        kind: steps.last().kind,
                        behavior: NodeBehavior::Park,
                        data: gate.pos,
                    },
                ),
                None => steps,
            },
            None => steps,
        }
    } else {
        steps
    }
}

impl AircraftView {
    /// The node at which an aircraft on the ground stands.
    pub open spec fn ground_node(self) -> Node<Point> {
        match self.state {
            AircraftStateView::Parked { at } => at,
            AircraftStateView::Taxiing { current, .. } => current,
            _ => arbitrary(),
        }
    }

    /// Where the planning of a taxi route begins.
    pub open spec fn taxi_start(self) -> TaxiStand {
        TaxiStand { place: bare(self.ground_node()), pos: self.pos, heading: self.heading }
    }

    /// The aircraft taxiing along the given steps, the last of them first.
    /// One that taxis already keeps the way it stands to traffic; a parked
    /// one is armed.
    pub open spec fn taxiing_along(self, steps: Seq<Node<Point>>) -> AircraftView {
        AircraftView {
            state: AircraftStateView::Taxiing {
                current: self.ground_node(),
                waypoints: steps.reverse(),
                state: match self.state {
                    AircraftStateView::Taxiing { state, .. } => state,
                    _ => TaxiingState::Armed,
                },
            },
            ..self
        }
    }

    /// What a taxi clearance does once a route is found for every leg:
    /// the aircraft taxis along the legs and is told to continue. Where
    /// the legs have no step at all nothing happens.
    pub open spec fn taxi_cleared(self, legs: Seq<PathView>, world: &World) -> Outcome {
        let airport = match world.airspace_index(self.airspace) {
            Some(i) => Some(world.airports@[i]),
            None => None,
        };
        let steps = parked_at_gate(joined(legs), airport);
        if steps.len() == 0 {
            Outcome::unchanged(self)
        } else {
            Outcome {
                aircraft: self.taxiing_along(steps),
                emitted: seq![EventKindView::TaxiContinue],
            }
        }
    }

    /// Whether `outcome` is what a taxi clearance through `destinations`
    /// does to an aircraft on the ground: either a route is found for every
    /// leg and the aircraft taxis along them, or some leg has no route and
    /// nothing happens.
    pub open spec fn taxi_outcome(
        self,
        destinations: Seq<Node<()>>,
        finder: &Pathfinder,
        world: &World,
        outcome: Outcome,
    ) -> bool {
        let wanted = remaining(destinations, self.ground_node());
        exists|legs: Seq<PathView>|
            {
                &&& #[trigger] legs_found(finder, self.taxi_start(), wanted, legs)
                &&& if legs.len() == wanted.len() {
                    outcome == self.taxi_cleared(legs, world)
                } else {
                    &&& !finder.routable(
                        stand_after(self.taxi_start(), legs).place,
                        wanted[legs.len() as int],
                    )
                    &&& outcome == Outcome::unchanged(self)
                }
            }
    }
}

/// The place from which the leg `k` of a taxi route starts: where the
/// aircraft stands, or the destination of the leg before.
pub open spec fn leg_start(a: AircraftView, wanted: Seq<Node<()>>, k: int) -> Node<()> {
    if k == 0 {
        bare(a.ground_node())
    } else {
        wanted[k - 1]
    }
}

/// The first legs of legs that are found are found.
proof fn lemma_legs_found_before(
    finder: &Pathfinder,
    start: TaxiStand,
    destinations: Seq<Node<()>>,
    legs: Seq<PathView>,
    m: int,
)
    requires
        legs_found(finder, start, destinations, legs),
        0 <= m <= legs.len(),
    ensures
        legs_found(finder, start, destinations, legs.take(m)),
    decreases legs.len(),
{
    if m < legs.len() {
        lemma_legs_found_before(finder, start, destinations, legs.drop_last(), m);
        assert(legs.drop_last().take(m) =~= legs.take(m));
    } else {
        assert(legs.take(m) =~= legs);
    }
}

/// A leg that is found ends at its destination.
proof fn lemma_leg_ends_at_destination(
    finder: &Pathfinder,
    from: Node<()>,
    to: Node<()>,
    pos: Point,
    heading: i64,
    route: PathView,
)
    requires
        finder.is_route(from, to, pos, heading, route),
    ensures
        bare(route.path.last()) == to,
{
    let (nodes, edges) = choose|nodes: Seq<int>, edges: Seq<int>|
        {
            &&& nodes.len() > 0
            &&& finder.index_of(from) is Some
            &&& #[trigger] finder.is_walk(finder.index_of(from)->0, nodes, edges)
            &&& finder.index_of(to) == Some(nodes.last())
            &&& route.path == finder.walk_route(nodes, edges, to.behavior)
            &&& route.final_pos == route.path.last().data
            &&& route.final_heading == crate::pathfinder::arrival_heading(pos, heading, route.path)
        };
    crate::search::lemma_first_index_is_first(
        finder.nodes(),
        |n: Node<crate::pathfinder::Line>| n.same_place(to),
    );
    let t = nodes.last();
    assert(finder.nodes()[t].same_place(to));
    let last = route.path.last();
    assert(route.path.len() == nodes.len());
    assert(last == route.path[nodes.len() - 1]);
    assert(last.name == finder.nodes()[t].name);
    assert(last.kind == finder.nodes()[t].kind);
    assert(last.behavior == to.behavior);
    assert(bare(last).data == to.data);
}

/// A taxi clearance with a leg that has no route changes nothing and sends
/// nothing out.
pub proof fn lemma_taxi_aborts(
    a: AircraftView,
    destinations: Seq<Node<()>>,
    finder: &Pathfinder,
    world: &World,
    outcome: Outcome,
    k: int,
)
    requires
        a.taxi_outcome(destinations, finder, world, outcome),
        0 <= k < remaining(destinations, a.ground_node()).len(),
        !finder.routable(
            leg_start(a, remaining(destinations, a.ground_node()), k),
            remaining(destinations, a.ground_node())[k],
        ),
    ensures
        outcome == Outcome::unchanged(a),
{
    let wanted = remaining(destinations, a.ground_node());
    let start = a.taxi_start();
    let legs = choose|legs: Seq<PathView>|
        {
            &&& #[trigger] legs_found(finder, start, wanted, legs)
            &&& if legs.len() == wanted.len() {
                outcome == a.taxi_cleared(legs, world)
            } else {
                &&& !finder.routable(stand_after(start, legs).place, wanted[legs.len() as int])
                &&& outcome == Outcome::unchanged(a)
            }
        };
    if legs.len() == wanted.len() {
        let first = legs.take(k + 1);
        lemma_legs_found_before(finder, start, wanted, legs, k + 1);
        let before = first.drop_last();
        let stand = stand_after(start, before);
        assert(finder.routable(stand.place, wanted[k]));
        if k > 0 {
            lemma_legs_found_before(finder, start, wanted, legs, k);
            assert(before =~= legs.take(k));
            let earlier = stand_after(start, before.drop_last());
            lemma_leg_ends_at_destination(
                finder,
                earlier.place,
                wanted[k - 1],
                earlier.pos,
                earlier.heading,
                before.last(),
            );
        }
        assert(stand.place == leg_start(a, wanted, k));
    }
}

/// Plans the taxi route of an aircraft on the ground through the given
/// destinations and sets the aircraft on its way. An aircraft that is not
/// on the ground is only told to continue.
pub fn handle_taxi_event(
    aircraft: &mut Aircraft,
    waypoint_strings: &[Node<()>],
    pathfinder: &Pathfinder,
    events: &mut Vec<Event>,
    world: &World,
)
    requires
        old(aircraft)@.wf(),
        world.wf(),
        pathfinder.wf(),
    ensures
        final(aircraft)@.wf(),
        old(aircraft)@.state.on_ground() ==> exists|outcome: Outcome|
            {
                &&& #[trigger] old(aircraft)@.taxi_outcome(
                    waypoint_strings@,
                    pathfinder,
                    world,
                    outcome,
                )
                &&& final(aircraft)@ == outcome.aircraft
                &&& events_view(final(events)@) == events_view(old(events)@) + addressed(
                    old(aircraft).id,
                    outcome.emitted,
                )
            },
        !old(aircraft)@.state.on_ground() ==> {
            &&& final(aircraft)@ == old(aircraft)@
            &&& events_view(final(events)@) == events_view(old(events)@) + addressed(
                old(aircraft).id,
                seq![EventKindView::TaxiContinue],
            )
        },
{
    let id = aircraft.id;
    let found = match &aircraft.state {
        AircraftState::Taxiing { current, .. } => Some(*current),
        AircraftState::Parked { at } => Some(*at),
        _ => None,
    };
    let current = match found {
        Some(current) => current,
        None => {
            emit(events, id, EventKind::TaxiContinue);
            return;
        },
    };
    let ghost a = aircraft@;
    let ghost start = a.taxi_start();
    let ghost wanted = remaining(waypoint_strings@, current);
    let first: usize = if waypoint_strings.len() > 0 && waypoint_strings[0].name_and_kind_eq(
        &current,
    ) {
        1
    } else {
        0
    };
    assert(wanted =~= waypoint_strings@.subrange(first as int, waypoint_strings@.len() as int));
    let mut all_waypoints: Vec<Node<Point>> = Vec::new();
    let mut pos = aircraft.pos;
    let mut heading = aircraft.heading;
    let mut place: Node<()> = Node {
        name: current.name,
        kind: current.kind,
        behavior: current.behavior,
        data: (),
    };
    let ghost mut legs: Seq<PathView> = Seq::empty();
    let mut i: usize = first;
    while i < waypoint_strings.len()
        invariant
            pathfinder.wf(),
            first <= i <= waypoint_strings@.len(),
            wanted == waypoint_strings@.subrange(first as int, waypoint_strings@.len() as int),
            legs.len() == i - first,
            legs_found(pathfinder, start, wanted, legs),
            stand_after(start, legs) == (TaxiStand { place, pos, heading }),
            pos.in_range(),
            all_waypoints@ == joined(legs),
            forall|k: int| 0 <= k < all_waypoints@.len() ==> (#[trigger] all_waypoints@[k]).data.in_range(),
            events@ == old(events)@,
            aircraft@ == a,
            a == old(aircraft)@,
            a.wf(),
            a.state.on_ground(),
            id == a.id,
            start == a.taxi_start(),
            wanted == remaining(waypoint_strings@, a.ground_node()),
        decreases waypoint_strings.len() - i,
    {
        let destination = waypoint_strings[i];
        assert(destination == wanted[legs.len() as int]);
        match pathfinder.path_to(place, destination, pos, heading) {
            Some(route) => {
                proof {
                    let longer = legs.push(route@);
                    assert(longer.drop_last() =~= legs);
                    legs = longer;
                }
                pos = route.final_pos;
                heading = route.final_heading;
                let last = route.path[route.path.len() - 1];
                place = Node { name: last.name, kind: last.kind, behavior: last.behavior, data: () };
                let mut steps = route.path;
                all_waypoints.append(&mut steps);
            },
            None => {
                proof {
                    let outcome = Outcome::unchanged(a);
                    assert(a.taxi_outcome(waypoint_strings@, pathfinder, world, outcome));
                    assert(events_view(events@) =~= events_view(old(events)@) + addressed(
                        id,
                        outcome.emitted,
                    ));
                }
                return;
            },
        }
        i = i + 1;
    }
    let ghost airport_view = match world.airspace_index(a.airspace) {
        Some(i) => Some(world.airports@[i]),
        None => None,
    };
    if all_waypoints.len() > 0 {
        let last = all_waypoints[all_waypoints.len() - 1];
        if last.kind == NodeKind::Gate {
            if let Some(airport) = world.airport_of(aircraft.airspace) {
                if let Some(gate) = airport.find_gate(last.name) {
                    proof {
                        let (t, g) = choose|t: int, g: int| airport.is_first_gate(last.name, t, g);
                        assert(airport.terminals@[t].gates@[g].pos.in_range());
                    }
                    all_waypoints.push(
                        Node {
                            name: last.name,
                            kind: last.kind,
                            behavior: NodeBehavior::Park,
                            data: gate.pos,
                        },
                    );
                }
            }
        }
    }
    assert(all_waypoints@ == parked_at_gate(joined(legs), airport_view));
    let ghost outcome = a.taxi_cleared(legs, world);
    assert(a.taxi_outcome(waypoint_strings@, pathfinder, world, outcome));
    if all_waypoints.len() == 0 {
        assert(events_view(events@) =~= events_view(old(events)@) + addressed(id, outcome.emitted));
        return;
    }
    let ghost steps = all_waypoints@;
    let reversed = reverse_nodes(all_waypoints);
    let sub_state = match &aircraft.state {
        AircraftState::Taxiing { state, .. } => *state,
        _ => TaxiingState::Armed,
    };
    aircraft.state = AircraftState::Taxiing { current, waypoints: reversed, state: sub_state };
    emit(events, id, EventKind::TaxiContinue);
}

/// The nodes in the opposite order.
fn reverse_nodes(nodes: Vec<Node<Point>>) -> (r: Vec<Node<Point>>)
    ensures
        r@ == nodes@.reverse(),
{
    let mut reversed: Vec<Node<Point>> = Vec::new();
    let mut i: usize = nodes.len();
    while i > 0
        invariant
            i <= nodes@.len(),
            reversed@.len() == nodes@.len() - i,
            forall|k: int| 0 <= k < reversed@.len() ==> reversed@[k] == nodes@[nodes@.len() - 1 - k],
        decreases i,
    {
        i = i - 1;
        reversed.push(nodes[i]);
    }
    assert(reversed@ =~= nodes@.reverse());
    reversed
}

} // verus!
