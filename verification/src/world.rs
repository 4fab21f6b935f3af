//! Airports and the world that holds them.

use vstd::prelude::*;

use crate::aircraft::{Aircraft, AircraftView};
use crate::geometry::{move_point, moved_point, Point, COORD_LIMIT, FULL_TURN};
use crate::names::{
    Name, NAME_APPROACH, NAME_CENTER, NAME_DEPARTURE, NAME_GROUND, NAME_TOWER,
};
use crate::pathfinder::{Line, Node, NodeBehavior, NodeKind, Pathfinder};
use crate::search::{first_index, lemma_first_index_absent, lemma_first_index_found};

verus! {

/// The greatest altitude that the simulation holds: a million feet.
pub const ALTITUDE_LIMIT: i64 = 1_000_000_000;

/// The greatest speed that the simulation holds: ten thousand knots.
pub const SPEED_LIMIT: i64 = 10_000_000;

/// A runway: where it starts, which way it points and how long it is.
#[derive(Clone, Copy, Debug, PartialEq, Eq)]
pub struct Runway {
    pub id: Name,
    pub start: Point,
    pub heading: i64,
    pub length: i64,
}

impl Runway {
    /// The runway starts on the map, its heading is a compass heading and its
    /// length is not negative.
    pub open spec fn wf(self) -> bool {
        &&& self.start.in_range()
        &&& 0 <= self.heading < FULL_TURN
        &&& 0 <= self.length <= COORD_LIMIT
    }

    /// Whether the runway is sound.
    pub fn is_wf(&self) -> (r: bool)
        ensures
            r == self.wf(),
    {
        self.start.is_in_range() && 0 <= self.heading && self.heading < FULL_TURN && 0
            <= self.length && self.length <= COORD_LIMIT
    }

    /// The far end of the runway.
    pub open spec fn end_point(self) -> Point {
        moved_point(self.start, self.heading as int, self.length as int)
    }

    /// The runway as a node of the taxi graph.
    pub open spec fn as_line_node(self) -> Node<Line> {
        Node {
            name: self.id,
            kind: NodeKind::Runway,
            behavior: NodeBehavior::GoTo,
            data: Line { a: self.start, b: self.end_point() },
        }
    }

    /// The runway as a taxi destination.
    pub open spec fn as_destination(self) -> Node<()> {
        Node { name: self.id, kind: NodeKind::Runway, behavior: NodeBehavior::GoTo, data: () }
    }

    /// The far end of the runway.
    pub fn end(&self) -> (r: Point)
        requires
            self.wf(),
        ensures
            r == self.end_point(),
            r.in_range(),
    {
        move_point(self.start, self.heading, self.length)
    }

    /// The runway as a node of the taxi graph.
    pub fn to_line_node(&self) -> (r: Node<Line>)
        requires
            self.wf(),
        ensures
            r == self.as_line_node(),
    {
        Node {
            name: self.id,
            kind: NodeKind::Runway,
            behavior: NodeBehavior::GoTo,
            data: Line { a: self.start, b: self.end() },
        }
    }

    /// The runway as a taxi destination.
    pub fn to_destination(&self) -> (r: Node<()>)
        ensures
            r == self.as_destination(),
    {
        Node { name: self.id, kind: NodeKind::Runway, behavior: NodeBehavior::GoTo, data: () }
    }
}

/// A gate of a terminal.
#[derive(Clone, Copy, Debug, PartialEq, Eq)]
pub struct Gate {
    pub id: Name,
    pub pos: Point,
    pub heading: i64,
}

/// A terminal with its gates.
#[derive(Clone, Debug, PartialEq, Eq)]
pub struct Terminal {
    pub id: Name,
    pub gates: Vec<Gate>,
}

/// The radio frequencies of an airport.
#[derive(Clone, Copy, Debug, PartialEq, Eq)]
pub struct Frequencies {
    pub approach: i64,
    pub departure: i64,
    pub tower: i64,
    pub ground: i64,
    pub center: i64,
}

impl Frequencies {
    /// The frequency that a name stands for: one of "approach", "departure",
    /// "tower", "ground" and "center"; none for any other name.
    pub open spec fn named(self, name: Name) -> Option<i64> {
        if name.0 == NAME_APPROACH {
            Some(self.approach)
        } else if name.0 == NAME_DEPARTURE {
            Some(self.departure)
        } else if name.0 == NAME_TOWER {
            Some(self.tower)
        } else if name.0 == NAME_GROUND {
            Some(self.ground)
        } else if name.0 == NAME_CENTER {
            Some(self.center)
        } else {
            None
        }
    }

    /// Resolves a named frequency.
    pub fn try_from_name(&self, name: Name) -> (r: Option<i64>)
        ensures
            r == self.named(name),
    {
        if name.0 == NAME_APPROACH {
            Some(self.approach)
        } else if name.0 == NAME_DEPARTURE {
            Some(self.departure)
        } else if name.0 == NAME_TOWER {
            Some(self.tower)
        } else if name.0 == NAME_GROUND {
            Some(self.ground)
        } else if name.0 == NAME_CENTER {
            Some(self.center)
        } else {
            None
        }
    }
}

/// What the automated controllers may do at an airport.
#[derive(Clone, Copy, Debug, PartialEq, Eq)]
pub struct AirportStatus {
    pub divert_arrivals: bool,
    pub automate_air: bool,
    pub automate_ground: bool,
}

impl AirportStatus {
    /// No automation and no diversion.
    pub open spec fn manual() -> AirportStatus {
        AirportStatus { divert_arrivals: false, automate_air: false, automate_ground: false }
    }
}

impl Default for AirportStatus {
    fn default() -> (r: AirportStatus)
        ensures
            r == AirportStatus::manual(),
    {
        AirportStatus { divert_arrivals: false, automate_air: false, automate_ground: false }
    }
}

/// An airport: its airspace, runways, terminals, taxi graph and frequencies.
#[derive(Clone, Debug)]
pub struct Airport {
    pub id: Name,
    pub center: Point,
    /// The range from the center within which an aircraft is in this
    /// airport's airspace.
    pub radius: i64,
    pub runways: Vec<Runway>,
    pub terminals: Vec<Terminal>,
    pub pathfinder: Pathfinder,
    pub frequencies: Frequencies,
    pub status: AirportStatus,
}

impl Airport {
    /// The center, the runways, the gates and the taxi graph of the airport
    /// lie on the map.
    pub open spec fn wf(&self) -> bool {
        &&& self.center.in_range()
        &&& 0 <= self.radius <= COORD_LIMIT
        &&& forall|i: int| 0 <= i < self.runways@.len() ==> (#[trigger] self.runways@[i]).wf()
        &&& forall|t: int, g: int|
            0 <= t < self.terminals@.len() && 0 <= g < self.terminals@[t].gates@.len() ==> (
            #[trigger] self.terminals@[t].gates@[g]).pos.in_range()
        &&& self.pathfinder.wf()
    }

    /// Whether the airport is sound.
    pub fn is_wf(&self) -> (r: bool)
        ensures
            r == self.wf(),
    {
        if !(self.center.is_in_range() && 0 <= self.radius && self.radius <= COORD_LIMIT) {
            return false;
        }
        let mut i: usize = 0;
        while i < self.runways.len()
            invariant
                i <= self.runways@.len(),
                forall|j: int| 0 <= j < i ==> (#[trigger] self.runways@[j]).wf(),
            decreases self.runways.len() - i,
        {
            if !self.runways[i].is_wf() {
                return false;
            }
            i = i + 1;
        }
        let mut t: usize = 0;
        while t < self.terminals.len()
            invariant
                t <= self.terminals@.len(),
                forall|u: int, g: int|
                    0 <= u < t && 0 <= g < self.terminals@[u].gates@.len() ==> (
                    #[trigger] self.terminals@[u].gates@[g]).pos.in_range(),
            decreases self.terminals.len() - t,
        {
            let terminal = &self.terminals[t];
            let mut g: usize = 0;
            while g < terminal.gates.len()
                invariant
                    t < self.terminals@.len(),
                    terminal == &self.terminals@[t as int],
                    g <= terminal.gates@.len(),
                    forall|h: int| 0 <= h < g ==> (#[trigger] terminal.gates@[h]).pos.in_range(),
                decreases terminal.gates.len() - g,
            {
                if !terminal.gates[g].pos.is_in_range() {
                    assert(!self.terminals@[t as int].gates@[g as int].pos.in_range());
                    return false;
                }
                g = g + 1;
            }
            t = t + 1;
        }
        self.pathfinder.is_wf()
    }

    /// The runway with the given name, the first of them.
    pub open spec fn runway_named(&self, id: Name) -> Option<Runway> {
        match first_index(self.runways@, |r: Runway| r.id == id) {
            Some(i) => Some(self.runways@[i]),
            None => None,
        }
    }

    /// Looks a runway up by its name.
    pub fn find_runway(&self, id: Name) -> (r: Option<Runway>)
        ensures
            r == self.runway_named(id),
            r matches Some(found) ==> found.id == id && self.runways@.contains(found),
    {
        let ghost wanted = |r: Runway| r.id == id;
        let mut i: usize = 0;
        while i < self.runways.len()
            invariant
                i <= self.runways.len(),
                wanted == (|r: Runway| r.id == id),
                forall|j: int| 0 <= j < i ==> !wanted(#[trigger] self.runways@[j]),
            decreases self.runways.len() - i,
        {
            if self.runways[i].id == id {
                proof {
                    lemma_first_index_found(self.runways@, wanted, i as int);
                }
                return Some(self.runways[i]);
            }
            i = i + 1;
        }
        proof {
            lemma_first_index_absent(self.runways@, wanted);
        }
        None
    }
}

/// The ceiling at the arrival transition, unless the world is told
/// otherwise: ten thousand feet.
pub const ARRIVAL_ALTITUDE: i64 = 10_000_000;

/// The cruise altitude of eastbound flights, unless the world is told
/// otherwise: thirty-seven thousand feet.
pub const EAST_CRUISE_ALTITUDE: i64 = 37_000_000;

/// The cruise altitude of westbound flights, unless the world is told
/// otherwise: thirty-eight thousand feet.
pub const WEST_CRUISE_ALTITUDE: i64 = 38_000_000;

/// The altitudes that flights are planned with.
#[derive(Clone, Copy, Debug, PartialEq, Eq)]
pub struct CruiseLevels {
    /// The ceiling at the arrival transition.
    pub arrival: i64,
    /// Cruise altitude of eastbound flights.
    pub east: i64,
    /// Cruise altitude of westbound flights.
    pub west: i64,
}


/// The fixed part of the simulation: airports and en-route waypoints.
#[derive(Clone, Debug)]
pub struct World {
    pub airports: Vec<Airport>,
    pub waypoints: Vec<Node<Point>>,
    pub levels: CruiseLevels,
}

impl World {
    /// Every airport is sound, every waypoint lies on the map and the levels
    /// are within the altitude limit.
    pub open spec fn wf(&self) -> bool {
        &&& forall|i: int| 0 <= i < self.airports@.len() ==> (#[trigger] self.airports@[i]).wf()
        &&& forall|i: int|
            0 <= i < self.waypoints@.len() ==> (#[trigger] self.waypoints@[i]).data.in_range()
        &&& 0 <= self.levels.arrival <= ALTITUDE_LIMIT
        &&& 0 <= self.levels.east <= ALTITUDE_LIMIT
        &&& 0 <= self.levels.west <= ALTITUDE_LIMIT
    }

    /// Whether the world is sound.
    pub fn is_wf(&self) -> (r: bool)
        ensures
            r == self.wf(),
    {
        let mut i: usize = 0;
        while i < self.airports.len()
            invariant
                i <= self.airports@.len(),
                forall|j: int| 0 <= j < i ==> (#[trigger] self.airports@[j]).wf(),
            decreases self.airports.len() - i,
        {
            if !self.airports[i].is_wf() {
                return false;
            }
            i = i + 1;
        }
        let mut i: usize = 0;
        while i < self.waypoints.len()
            invariant
                i <= self.waypoints@.len(),
                forall|j: int| 0 <= j < self.airports@.len() ==> (#[trigger] self.airports@[j]).wf(),
                forall|j: int| 0 <= j < i ==> (#[trigger] self.waypoints@[j]).data.in_range(),
            decreases self.waypoints.len() - i,
        {
            if !self.waypoints[i].data.is_in_range() {
                return false;
            }
            i = i + 1;
        }
        0 <= self.levels.arrival && self.levels.arrival <= ALTITUDE_LIMIT && 0 <= self.levels.east
            && self.levels.east <= ALTITUDE_LIMIT && 0 <= self.levels.west && self.levels.west
            <= ALTITUDE_LIMIT
    }

    /// The index of the first airport with the given name.
    pub open spec fn airport_index(&self, id: Name) -> Option<int> {
        first_index(self.airports@, |a: Airport| a.id == id)
    }

    /// The index of the airport whose airspace an aircraft is in.
    pub open spec fn airspace_index(&self, airspace: Option<Name>) -> Option<int> {
        match airspace {
            Some(id) => self.airport_index(id),
            None => None,
        }
    }

    /// What the controllers may do at the named airport; nothing where no
    /// airport has the name.
    pub open spec fn status_of(&self, id: Name) -> AirportStatus {
        match self.airport_index(id) {
            Some(i) => self.airports@[i].status,
            None => AirportStatus::manual(),
        }
    }

    /// The index of the first airport with the given name.
    pub fn find_airport(&self, id: Name) -> (r: Option<usize>)
        ensures
            r is Some == self.airport_index(id) is Some,
            r matches Some(i) ==> self.airport_index(id) == Some(i as int) && i < self.airports@.len()
                && self.airports@[i as int].id == id,
    {
        let ghost wanted = |a: Airport| a.id == id;
        let mut i: usize = 0;
        while i < self.airports.len()
            invariant
                i <= self.airports.len(),
                wanted == (|a: Airport| a.id == id),
                forall|j: int| 0 <= j < i ==> !wanted(#[trigger] self.airports@[j]),
            decreases self.airports.len() - i,
        {
            if self.airports[i].id == id {
                proof {
                    lemma_first_index_found(self.airports@, wanted, i as int);
                }
                return Some(i);
            }
            i = i + 1;
        }
        proof {
            lemma_first_index_absent(self.airports@, wanted);
        }
        None
    }

    /// The airport with the given name.
    pub fn airport(&self, id: Name) -> (r: Option<&Airport>)
        ensures
            match self.airport_index(id) {
                Some(i) => r == Some(&self.airports@[i]),
                None => r is None,
            },
    {
        match self.find_airport(id) {
            Some(i) => Some(&self.airports[i]),
            None => None,
        }
    }

    /// The airport whose airspace an aircraft is in.
    pub fn airport_of(&self, airspace: Option<Name>) -> (r: Option<&Airport>)
        ensures
            match self.airspace_index(airspace) {
                Some(i) => r == Some(&self.airports@[i]),
                None => r is None,
            },
    {
        match airspace {
            Some(id) => self.airport(id),
            None => None,
        }
    }

    /// What the controllers may do at the named airport.
    pub fn airport_status(&self, id: Name) -> (r: AirportStatus)
        ensures
            r == self.status_of(id),
    {
        match self.find_airport(id) {
            Some(i) => self.airports[i].status,
            None => AirportStatus::default(),
        }
    }
}

impl Airport {
    /// Whether gate `g` of the terminal `t` is the first gate of the
    /// airport, in the order of its terminals and of their gates, with the
    /// given name.
    pub open spec fn is_first_gate(&self, name: Name, t: int, g: int) -> bool {
        &&& 0 <= t < self.terminals@.len()
        &&& 0 <= g < self.terminals@[t].gates@.len()
        &&& self.terminals@[t].gates@[g].id == name
        &&& forall|u: int, h: int|
            0 <= u < self.terminals@.len() && 0 <= h < self.terminals@[u].gates@.len() && (u < t || (u
                == t && h < g)) ==> (#[trigger] self.terminals@[u].gates@[h]).id != name
    }

    /// The first gate of the airport with the given name.
    pub open spec fn gate_named(&self, name: Name) -> Option<Gate> {
        if exists|t: int, g: int| self.is_first_gate(name, t, g) {
            let (t, g) = choose|t: int, g: int| self.is_first_gate(name, t, g);
            Some(self.terminals@[t].gates@[g])
        } else {
            None
        }
    }

    /// Looks a gate up by its name.
    pub fn find_gate(&self, name: Name) -> (r: Option<Gate>)
        ensures
            r == self.gate_named(name),
    {
        let mut t: usize = 0;
        while t < self.terminals.len()
            invariant
                t <= self.terminals@.len(),
                forall|u: int, h: int|
                    0 <= u < t && 0 <= h < self.terminals@[u].gates@.len() ==> (
                    #[trigger] self.terminals@[u].gates@[h]).id != name,
            decreases self.terminals.len() - t,
        {
            let terminal = &self.terminals[t];
            let mut g: usize = 0;
            while g < terminal.gates.len()
                invariant
                    t < self.terminals@.len(),
                    terminal == &self.terminals@[t as int],
                    g <= terminal.gates@.len(),
                    forall|u: int, h: int|
                        0 <= u < t && 0 <= h < self.terminals@[u].gates@.len() ==> (
                        #[trigger] self.terminals@[u].gates@[h]).id != name,
                    forall|h: int| 0 <= h < g ==> (#[trigger] terminal.gates@[h]).id != name,
                decreases terminal.gates.len() - g,
            {
                if terminal.gates[g].id == name {
                    proof {
                        assert(self.is_first_gate(name, t as int, g as int));
                        let (t2, g2) = choose|t2: int, g2: int| self.is_first_gate(name, t2, g2);
                        if t2 < t || (t2 == t && g2 < g) {
                            assert(self.terminals@[t2].gates@[g2].id != name);
                        }
                        if t < t2 || (t == t2 && g < g2) {
                            assert(self.terminals@[t as int].gates@[g as int].id != name);
                        }
                    }
                    return Some(terminal.gates[g]);
                }
                g = g + 1;
            }
            t = t + 1;
        }
        proof {
            if exists|t: int, g: int| self.is_first_gate(name, t, g) {
                let (t2, g2) = choose|t2: int, g2: int| self.is_first_gate(name, t2, g2);
                assert(self.terminals@[t2].gates@[g2].id != name);
            }
        }
        None
    }
}

/// The changing part of the simulation: the aircraft, in the order in which
/// they were added.
#[derive(Clone, Debug)]
pub struct Game {
    pub aircraft: Vec<Aircraft>,
}

impl View for Game {
    type V = Seq<AircraftView>;

    open spec fn view(&self) -> Seq<AircraftView> {
        fleet_view(self.aircraft@)
    }
}

/// The values of a list of aircraft.
pub open spec fn fleet_view(aircraft: Seq<Aircraft>) -> Seq<AircraftView> {
    aircraft.map_values(|a: Aircraft| a@)
}

/// Whether every aircraft of a fleet is sound.
pub open spec fn fleet_wf(fleet: Seq<AircraftView>) -> bool {
    forall|i: int| 0 <= i < fleet.len() ==> (#[trigger] fleet[i]).wf()
}

impl Default for World {
    /// A world without airports or waypoints.
    fn default() -> (r: World)
        ensures
            r.airports@.len() == 0,
            r.waypoints@.len() == 0,
            r.levels == (CruiseLevels {
                arrival: ARRIVAL_ALTITUDE,
                east: EAST_CRUISE_ALTITUDE,
                west: WEST_CRUISE_ALTITUDE,
            }),
            r.wf(),
    {
        World {
            airports: Vec::new(),
            waypoints: Vec::new(),
            levels: CruiseLevels {
                arrival: ARRIVAL_ALTITUDE,
                east: EAST_CRUISE_ALTITUDE,
                west: WEST_CRUISE_ALTITUDE,
            },
        }
    }
}

impl Default for Game {
    /// A game without aircraft.
    fn default() -> (r: Game)
        ensures
            r@.len() == 0,
    {
        Game { aircraft: Vec::new() }
    }
}

} // verus!
