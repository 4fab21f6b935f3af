use atc_engine::aircraft::{
    Aircraft, AircraftState, AircraftTargets, FlightSegment, LandingState, Performance,
    SeparationMinima, TaxiingState, TCAS,
};
use atc_engine::approach::lay_pattern;
use atc_engine::command::{CommandReply, CommandWithFreq, Task};
use atc_engine::engine::{
    Engine, EngineConfig, EngineError, Event, UICommand, UIEvent, DEFAULT_TICK_RATE_TPS,
};
use atc_engine::events::{
    handle_aircraft_event, handle_approach_transition, handle_callout_tara, handle_land_event,
    handle_parked_transition, handle_takeoff_event, handle_taxi_event, handle_touchdown_event,
    AircraftEvent, EventKind,
};
use atc_engine::geometry::{CompassPoint, Point};
use atc_engine::names::{Name, NAME_DEPARTURE, NAME_SID, NAME_STAR, NAME_TOWER};
use atc_engine::pathfinder::{Line, Node, NodeBehavior, NodeKind, Pathfinder};
use atc_engine::tcas::advise_pair;
use atc_engine::wayfinder::{new_vor, FlightPlan, VORActions, VORData, VORLimit, VORLimits};
use atc_engine::world::{
    Airport, AirportStatus, CruiseLevels, Frequencies, Gate, Runway, Terminal, World,
};
use turborand::rng::Rng;
use turborand::SeededCore;

const NM: i64 = 6_076_120;

fn name(text: &str) -> Name {
    Name::from_bytes(text.as_bytes()).unwrap()
}

fn feet(value: i64) -> i64 {
    value * 1_000
}

fn knots(value: i64) -> i64 {
    value * 1_000
}

fn degrees(value: i64) -> i64 {
    value * 1_000
}

fn point(x: i64, y: i64) -> Point {
    Point { x, y }
}

fn frequencies() -> Frequencies {
    Frequencies {
        approach: 124_500,
        departure: 125_200,
        tower: 118_700,
        ground: 121_900,
        center: 132_100,
    }
}

fn automated() -> AirportStatus {
    AirportStatus { divert_arrivals: false, automate_air: true, automate_ground: true }
}

fn line(a: Point, b: Point) -> Line {
    Line { a, b }
}

fn graph_node(text: &str, kind: NodeKind, a: Point, b: Point) -> Node<Line> {
    Node { name: name(text), kind, behavior: NodeBehavior::GoTo, data: line(a, b) }
}

/// An airport with one runway that points west, one taxiway, an apron and
/// two gates:
///
/// runway 27 -- taxiway B -- apron AP -- gates A1, A2
fn airport(id: &str, center: Point) -> Airport {
    let at = |x: i64, y: i64| point(center.x + feet(x), center.y + feet(y));
    let mut graph = petgraph::graph::UnGraph::<Node<Line>, Point>::new_undirected();
    let runway = graph.add_node(graph_node("27", NodeKind::Runway, at(4_000, 0), at(-3_000, 0)));
    let taxiway = graph.add_node(graph_node("B", NodeKind::Taxiway, at(3_900, 0), at(3_900, -900)));
    let apron = graph.add_node(graph_node("AP", NodeKind::Apron, at(3_900, -900), at(3_000, -900)));
    let gate_one = graph.add_node(graph_node("A1", NodeKind::Gate, at(3_500, -900), at(3_500, -1_000)));
    let gate_two = graph.add_node(graph_node("A2", NodeKind::Gate, at(3_200, -900), at(3_200, -1_000)));
    graph.add_edge(runway, taxiway, at(3_900, 0));
    graph.add_edge(taxiway, apron, at(3_900, -900));
    graph.add_edge(apron, gate_one, at(3_500, -900));
    graph.add_edge(apron, gate_two, at(3_200, -900));
    Airport {
        id: name(id),
        center,
        radius: 30 * NM,
        runways: vec![Runway {
            id: name("27"),
            start: at(4_000, 0),
            heading: degrees(270),
            length: feet(7_000),
        }],
        terminals: vec![Terminal {
            id: name("A"),
            gates: vec![
                Gate { id: name("A1"), pos: at(3_500, -1_000), heading: degrees(180) },
                Gate { id: name("A2"), pos: at(3_200, -1_000), heading: degrees(180) },
            ],
        }],
        pathfinder: Pathfinder { graph },
        frequencies: frequencies(),
        status: automated(),
    }
}

fn levels() -> CruiseLevels {
    CruiseLevels { arrival: feet(10_000), east: feet(37_000), west: feet(38_000) }
}

/// Two airports two hundred miles apart, KSFO in the west and KLAX in the
/// east, with two waypoints on the way and one off it.
fn world() -> World {
    World {
        airports: vec![airport("KSFO", point(0, 0)), airport("KLAX", point(200 * NM, 0))],
        waypoints: vec![
            Node {
                name: name("OFF"),
                kind: NodeKind::VOR,
                behavior: NodeBehavior::GoTo,
                data: point(50 * NM, 80 * NM),
            },
            Node {
                name: name("TWO"),
                kind: NodeKind::VOR,
                behavior: NodeBehavior::GoTo,
                data: point(140 * NM, -5 * NM),
            },
            Node {
                name: name("ONE"),
                kind: NodeKind::VOR,
                behavior: NodeBehavior::GoTo,
                data: point(70 * NM, 10 * NM),
            },
        ],
        levels: levels(),
    }
}

fn plane(id: &str) -> Aircraft {
    Aircraft {
        id: name(id),
        pos: point(0, 0),
        altitude: 0,
        heading: 0,
        speed: 0,
        target: AircraftTargets { heading: 0, altitude: 0, speed: 0 },
        airspace: None,
        frequency: 118_500,
        state: AircraftState::Flying,
        segment: FlightSegment::Cruise,
        tcas: TCAS::Idle,
        flight_plan: FlightPlan {
            departing: name("KSFO"),
            arriving: name("KLAX"),
            altitude: feet(37_000),
            speed: knots(450),
            waypoints: vec![],
            waypoint_index: 0,
            course_offset: 0,
            follow: true,
        },
        flight_time: None,
        minima: SeparationMinima {
            min_speed: knots(170),
            max_speed: knots(250),
            separation_distance: 5 * NM,
            max_deviation_angle: degrees(20),
        },
        performance: Performance {
            turn_rate: degrees(3),
            climb_rate: 33_333,
            acceleration: knots(3),
            deceleration: knots(6),
        },
    }
}

fn cruising(id: &str, pos: Point, heading: i64, altitude: i64) -> Aircraft {
    Aircraft {
        pos,
        heading,
        altitude,
        speed: knots(250),
        target: AircraftTargets { heading, altitude, speed: knots(250) },
        ..plane(id)
    }
}

fn taxi_node(text: &str, kind: NodeKind, behavior: NodeBehavior, pos: Point) -> Node<Point> {
    Node { name: name(text), kind, behavior, data: pos }
}

fn parked(id: &str, gate: &str, pos: Point) -> Aircraft {
    Aircraft {
        pos,
        airspace: Some(name("KSFO")),
        state: AircraftState::Parked {
            at: taxi_node(gate, NodeKind::Gate, NodeBehavior::Park, pos),
        },
        segment: FlightSegment::Parked,
        ..plane(id)
    }
}

fn taxiing(id: &str, current: Node<Point>, waypoints: Vec<Node<Point>>) -> Aircraft {
    Aircraft {
        pos: current.data,
        airspace: Some(name("KSFO")),
        state: AircraftState::Taxiing { current, waypoints, state: TaxiingState::Armed },
        segment: FlightSegment::TaxiDep,
        ..plane(id)
    }
}

fn landing(id: &str, state: LandingState) -> Aircraft {
    let runway = world().airports[0].runways[0];
    Aircraft {
        pos: point(runway.start.x + 3 * NM, runway.start.y),
        heading: degrees(270),
        altitude: feet(900),
        speed: knots(150),
        target: AircraftTargets { heading: degrees(270), altitude: feet(900), speed: knots(150) },
        airspace: Some(name("KSFO")),
        state: AircraftState::Landing { runway, state },
        segment: FlightSegment::Landing,
        flight_plan: FlightPlan { course_offset: degrees(20), ..plane(id).flight_plan },
        ..plane(id)
    }
}

fn rng() -> Rng {
    Rng::with_seed(7)
}

fn to(id: &str, kind: EventKind) -> Event {
    Event::Aircraft(AircraftEvent { id: name(id), kind })
}

fn apply(aircraft: &mut Aircraft, kind: EventKind) -> Vec<Event> {
    let mut events = Vec::new();
    handle_aircraft_event(aircraft, &kind, &mut events, &world(), &mut rng());
    events
}

fn engine_with(aircraft: Vec<Aircraft>) -> Engine {
    let mut engine = Engine::default();
    engine.rng = rng();
    engine.world = world();
    engine.load_assets(world().airports);
    for one in aircraft {
        engine.add_aircraft(one);
    }
    engine
}

fn heading_in_range(engine: &Engine) -> bool {
    engine.game.aircraft.iter().all(|a| 0 <= a.heading && a.heading < 360_000)
}

// Events that change what an aircraft aims for.

#[test]
fn speed_sets_the_speed_target() {
    let mut a = plane("AAL1");
    assert_eq!(apply(&mut a, EventKind::Speed(knots(210))), vec![]);
    assert_eq!(a, Aircraft { target: AircraftTargets { speed: knots(210), ..plane("AAL1").target }, ..plane("AAL1") });
}

#[test]
fn speed_is_held_within_the_limits() {
    let mut a = plane("AAL1");
    apply(&mut a, EventKind::Speed(-5));
    assert_eq!(a.target.speed, 0);
    apply(&mut a, EventKind::Speed(i64::MAX));
    assert_eq!(a.target.speed, 10_000_000);
}

#[test]
fn speed_at_or_below_only_lowers_the_target() {
    let mut a = plane("AAL1");
    a.target.speed = knots(250);
    apply(&mut a, EventKind::SpeedAtOrBelow(knots(300)));
    assert_eq!(a.target.speed, knots(250));
    apply(&mut a, EventKind::SpeedAtOrBelow(knots(180)));
    assert_eq!(a.target.speed, knots(180));
}

#[test]
fn speed_at_or_above_only_raises_the_target() {
    let mut a = plane("AAL1");
    a.target.speed = knots(250);
    apply(&mut a, EventKind::SpeedAtOrAbove(knots(200)));
    assert_eq!(a.target.speed, knots(250));
    apply(&mut a, EventKind::SpeedAtOrAbove(knots(280)));
    assert_eq!(a.target.speed, knots(280));
}

#[test]
fn altitude_events_set_cap_and_raise_the_target() {
    let mut a = plane("AAL1");
    apply(&mut a, EventKind::Altitude(feet(5_000)));
    assert_eq!(a.target.altitude, feet(5_000));
    apply(&mut a, EventKind::AltitudeAtOrBelow(feet(6_000)));
    assert_eq!(a.target.altitude, feet(5_000));
    apply(&mut a, EventKind::AltitudeAtOrBelow(feet(4_000)));
    assert_eq!(a.target.altitude, feet(4_000));
    apply(&mut a, EventKind::AltitudeAtOrAbove(feet(3_000)));
    assert_eq!(a.target.altitude, feet(4_000));
    apply(&mut a, EventKind::AltitudeAtOrAbove(feet(7_000)));
    assert_eq!(a.target.altitude, feet(7_000));
    apply(&mut a, EventKind::Altitude(i64::MAX));
    assert_eq!(a.target.altitude, 1_000_000_000);
    apply(&mut a, EventKind::Altitude(i64::MIN));
    assert_eq!(a.target.altitude, 0);
}

#[test]
fn heading_in_flight_leaves_the_plan() {
    let mut a = plane("AAL1");
    a.flight_plan.course_offset = degrees(20);
    assert_eq!(apply(&mut a, EventKind::Heading(degrees(400))), vec![]);
    assert_eq!(a.target.heading, degrees(40));
    assert!(!a.flight_plan.follow);
    assert_eq!(a.flight_plan.course_offset, 0);
}

#[test]
fn heading_on_landing_leaves_the_plan_too() {
    let mut a = landing("AAL1", LandingState::Approach);
    apply(&mut a, EventKind::Heading(degrees(-10)));
    assert_eq!(a.target.heading, degrees(350));
    assert!(!a.flight_plan.follow);
    assert_eq!(a.flight_plan.course_offset, 0);
    assert!(matches!(a.state, AircraftState::Landing { state: LandingState::Approach, .. }));
}

#[test]
fn heading_on_the_ground_does_nothing() {
    let mut a = parked("AAL1", "A1", point(1, 2));
    apply(&mut a, EventKind::Heading(degrees(90)));
    assert_eq!(a, parked("AAL1", "A1", point(1, 2)));
}

#[test]
fn frequency_tunes_the_radio() {
    let mut a = plane("AAL1");
    assert_eq!(apply(&mut a, EventKind::Frequency(127_000)), vec![]);
    assert_eq!(a.frequency, 127_000);
}

#[test]
fn named_frequency_resolves_at_the_airport_of_the_airspace() {
    let mut a = plane("AAL1");
    a.airspace = Some(name("KLAX"));
    apply(&mut a, EventKind::NamedFrequency(name("tower")));
    assert_eq!(a.frequency, 118_700);
    apply(&mut a, EventKind::NamedFrequency(name("ground")));
    assert_eq!(a.frequency, 121_900);
    apply(&mut a, EventKind::NamedFrequency(name("departure")));
    assert_eq!(a.frequency, 125_200);
    apply(&mut a, EventKind::NamedFrequency(name("approach")));
    assert_eq!(a.frequency, 124_500);
    apply(&mut a, EventKind::NamedFrequency(name("center")));
    assert_eq!(a.frequency, 132_100);
}

#[test]
fn named_frequency_that_does_not_resolve_is_ignored() {
    let mut a = plane("AAL1");
    a.airspace = Some(name("KLAX"));
    apply(&mut a, EventKind::NamedFrequency(name("unicom")));
    assert_eq!(a.frequency, 118_500);
    a.airspace = None;
    apply(&mut a, EventKind::NamedFrequency(name("tower")));
    assert_eq!(a.frequency, 118_500);
    a.airspace = Some(name("KJFK"));
    apply(&mut a, EventKind::NamedFrequency(name("tower")));
    assert_eq!(a.frequency, 118_500);
}

// Events that change the plan.

fn three_waypoints() -> Vec<Node<VORData>> {
    vec![
        new_vor(name("ONE"), point(1, 1)),
        new_vor(name("TWO"), point(2, 2)),
        new_vor(name("ONE"), point(3, 3)),
    ]
}

#[test]
fn direct_goes_on_at_the_first_waypoint_of_that_name() {
    let mut a = plane("AAL1");
    a.flight_plan.waypoints = three_waypoints();
    a.flight_plan.waypoint_index = 2;
    assert_eq!(apply(&mut a, EventKind::Direct(name("TWO"))), vec![]);
    assert_eq!(a.flight_plan.waypoint_index, 1);
    apply(&mut a, EventKind::Direct(name("ONE")));
    assert_eq!(a.flight_plan.waypoint_index, 0);
}

#[test]
fn direct_to_an_unknown_waypoint_does_nothing() {
    let mut a = plane("AAL1");
    a.flight_plan.waypoints = three_waypoints();
    a.flight_plan.waypoint_index = 2;
    apply(&mut a, EventKind::Direct(name("NONE")));
    assert_eq!(a.flight_plan.waypoint_index, 2);
}

#[test]
fn amend_and_follow_replaces_the_rest_of_the_plan() {
    let mut a = plane("AAL1");
    a.flight_plan.waypoints = three_waypoints();
    a.flight_plan.waypoint_index = 1;
    a.flight_plan.follow = false;
    let tail = vec![new_vor(name("CW"), point(9, 9)), new_vor(name("DW"), point(8, 8))];
    assert_eq!(apply(&mut a, EventKind::AmendAndFollow(tail)), vec![]);
    assert_eq!(
        a.flight_plan.waypoints,
        vec![
            new_vor(name("ONE"), point(1, 1)),
            new_vor(name("CW"), point(9, 9)),
            new_vor(name("DW"), point(8, 8)),
        ]
    );
    assert_eq!(a.flight_plan.waypoint_index, 1);
    assert!(a.flight_plan.follow);
}

#[test]
fn amend_and_follow_at_the_end_of_the_plan_appends() {
    let mut a = plane("AAL1");
    a.flight_plan.waypoints = three_waypoints();
    a.flight_plan.waypoint_index = 3;
    apply(&mut a, EventKind::AmendAndFollow(vec![new_vor(name("CW"), point(9, 9))]));
    assert_eq!(a.flight_plan.waypoints.len(), 4);
    assert_eq!(a.flight_plan.waypoints[3], new_vor(name("CW"), point(9, 9)));
    assert_eq!(a.flight_plan.waypoint_index, 3);
}

#[test]
fn an_amendment_off_the_map_is_ignored() {
    let mut a = plane("AAL1");
    a.flight_plan.waypoints = three_waypoints();
    a.flight_plan.follow = false;
    let tail = vec![new_vor(name("CW"), point(9, 9)), new_vor(name("DW"), point(i64::MAX, 0))];
    apply(&mut a, EventKind::AmendAndFollow(tail));
    assert_eq!(a.flight_plan.waypoints, three_waypoints());
    assert!(!a.flight_plan.follow);
}

#[test]
fn resume_own_navigation_plans_the_route() {
    let mut a = plane("AAL1");
    a.flight_plan.waypoints = three_waypoints();
    a.flight_plan.waypoint_index = 2;
    let events = apply(&mut a, EventKind::ResumeOwnNavigation { diversion: false });
    assert_eq!(events, vec![]);
    let sid = new_vor(Name(NAME_SID), point(30 * NM, 0)).with_actions(VORActions {
        speed_at_or_above: Some(knots(450)),
        altitude_at_or_above: Some(feet(37_000)),
        frequency: Some(132_100),
    });
    let star = new_vor(Name(NAME_STAR), point(170 * NM, 0)).with_limits(VORLimits {
        altitude: VORLimit::AtOrBelow(feet(10_000)),
        speed: VORLimit::AtOrBelow(knots(250)),
    });
    assert_eq!(
        a.flight_plan.waypoints,
        vec![
            sid,
            new_vor(name("ONE"), point(70 * NM, 10 * NM)),
            new_vor(name("TWO"), point(140 * NM, -5 * NM)),
            star,
        ]
    );
    assert_eq!(a.flight_plan.waypoint_index, 0);
}

#[test]
fn a_westbound_route_cruises_at_the_western_level() {
    let mut a = plane("AAL1");
    a.flight_plan.departing = name("KLAX");
    a.flight_plan.arriving = name("KSFO");
    apply(&mut a, EventKind::ResumeOwnNavigation { diversion: false });
    assert_eq!(a.flight_plan.waypoints[0].data.actions.altitude_at_or_above, Some(feet(38_000)));
    assert_eq!(a.flight_plan.waypoints[0].data.pos, point(170 * NM, 0));
    assert_eq!(a.flight_plan.waypoints.last().unwrap().data.pos, point(30 * NM, 0));
}

#[test]
fn a_diversion_leaves_the_departure_transition_out() {
    let mut a = plane("AAL1");
    let events = apply(&mut a, EventKind::ResumeOwnNavigation { diversion: true });
    assert_eq!(
        events,
        vec![
            to("AAL1", EventKind::SpeedAtOrAbove(knots(450))),
            to("AAL1", EventKind::AltitudeAtOrAbove(feet(37_000))),
            to("AAL1", EventKind::Frequency(132_100)),
        ]
    );
    assert_eq!(a.flight_plan.waypoints.len(), 3);
    assert_eq!(a.flight_plan.waypoints[0].name, name("ONE"));
    assert_eq!(a.flight_plan.waypoints[2].name, Name(NAME_STAR));
}

#[test]
fn resume_own_navigation_needs_both_airports_and_flight() {
    let mut a = plane("AAL1");
    a.flight_plan.arriving = name("KJFK");
    a.flight_plan.waypoints = three_waypoints();
    assert_eq!(apply(&mut a, EventKind::ResumeOwnNavigation { diversion: true }), vec![]);
    assert_eq!(a.flight_plan.waypoints, three_waypoints());
    let mut b = parked("AAL2", "A1", point(0, 0));
    assert_eq!(apply(&mut b, EventKind::ResumeOwnNavigation { diversion: true }), vec![]);
    assert_eq!(b, parked("AAL2", "A1", point(0, 0)));
}

// Transitions.

#[test]
fn land_begins_the_approach_to_a_runway_of_the_airspace() {
    let mut a = plane("AAL1");
    a.airspace = Some(name("KSFO"));
    assert_eq!(apply(&mut a, EventKind::Land(name("27"))), vec![]);
    assert_eq!(
        a.state,
        AircraftState::Landing { runway: world().airports[0].runways[0], state: LandingState::Approach }
    );
}

#[test]
fn land_again_starts_the_approach_again() {
    let mut a = landing("AAL1", LandingState::Established);
    handle_land_event(&mut a, name("27"), &world());
    assert_eq!(
        a.state,
        AircraftState::Landing { runway: world().airports[0].runways[0], state: LandingState::Approach }
    );
}

#[test]
fn land_on_an_unknown_runway_or_on_the_ground_is_ignored() {
    let mut a = plane("AAL1");
    a.airspace = Some(name("KSFO"));
    apply(&mut a, EventKind::Land(name("09")));
    assert_eq!(a.state, AircraftState::Flying);
    a.airspace = None;
    apply(&mut a, EventKind::Land(name("27")));
    assert_eq!(a.state, AircraftState::Flying);
    let mut b = parked("AAL2", "A1", point(0, 0));
    apply(&mut b, EventKind::Land(name("27")));
    assert_eq!(b, parked("AAL2", "A1", point(0, 0)));
}

#[test]
fn go_around_flies_again_and_asks_for_height_and_speed() {
    let mut a = landing("AAL1", LandingState::Established);
    a.target = AircraftTargets { heading: degrees(265), altitude: feet(200), speed: knots(140) };
    let events = apply(&mut a, EventKind::GoAround);
    assert_eq!(
        events,
        vec![
            to("AAL1", EventKind::AltitudeAtOrAbove(feet(3_000))),
            to("AAL1", EventKind::SpeedAtOrAbove(knots(250))),
        ]
    );
    assert_eq!(a.state, AircraftState::Flying);
    assert!(!a.flight_plan.follow);
    assert_eq!(a.flight_plan.course_offset, 0);
    assert_eq!(
        a.target,
        AircraftTargets { heading: degrees(270), altitude: feet(900), speed: knots(150) }
    );
}

#[test]
fn go_around_in_flight_does_nothing() {
    let mut a = plane("AAL1");
    assert_eq!(apply(&mut a, EventKind::GoAround), vec![]);
    assert_eq!(a, plane("AAL1"));
}

#[test]
fn after_a_go_around_the_targets_come_up_at_the_next_event_round() {
    let mut a = landing("AAL1", LandingState::Established);
    let events = apply(&mut a, EventKind::GoAround);
    for event in events {
        match event {
            Event::Aircraft(e) => {
                apply(&mut a, e.kind);
            }
            Event::UiEvent(_) => {}
        }
    }
    assert_eq!(a.state, AircraftState::Flying);
    assert!(a.target.altitude >= feet(3_000));
    assert!(a.target.speed >= knots(250));
    assert!(!a.flight_plan.follow);
}

#[test]
fn touchdown_puts_a_landing_aircraft_on_the_runway() {
    let mut a = landing("AAL1", LandingState::Established);
    let pos = a.pos;
    assert_eq!(apply(&mut a, EventKind::Touchdown), vec![]);
    assert_eq!(a.altitude, 0);
    assert_eq!(a.heading, degrees(270));
    assert_eq!(a.target, AircraftTargets { heading: degrees(270), altitude: 0, speed: 0 });
    assert_eq!(a.speed, knots(150));
    assert_eq!(
        a.state,
        AircraftState::Taxiing {
            current: taxi_node("27", NodeKind::Runway, NodeBehavior::GoTo, pos),
            waypoints: vec![],
            state: TaxiingState::Override,
        }
    );
}

#[test]
fn handle_touchdown_event_overrides_traffic_stops() {
    let mut a = landing("AAL1", LandingState::Touchdown);
    handle_touchdown_event(&mut a);
    assert!(matches!(a.state, AircraftState::Taxiing { state: TaxiingState::Override, .. }));
}

#[test]
fn touchdown_in_flight_does_nothing() {
    let mut a = plane("AAL1");
    assert_eq!(apply(&mut a, EventKind::Touchdown), vec![]);
    assert_eq!(a, plane("AAL1"));
}

fn on_runway(id: &str) -> Aircraft {
    let start = world().airports[0].runways[0].start;
    taxiing(id, taxi_node("27", NodeKind::Runway, NodeBehavior::GoTo, start), vec![])
}

#[test]
fn takeoff_on_the_runway_flies() {
    let mut a = on_runway("AAL1");
    a.heading = degrees(180);
    let events = apply(&mut a, EventKind::Takeoff(name("27")));
    assert_eq!(events, vec![to("AAL1", EventKind::ResumeOwnNavigation { diversion: false })]);
    assert_eq!(a.state, AircraftState::Flying);
    assert_eq!(a.heading, degrees(270));
    assert_eq!(
        a.target,
        AircraftTargets { heading: degrees(270), altitude: feet(37_000), speed: knots(250) }
    );
}

#[test]
fn takeoff_before_the_runway_arms_the_takeoff() {
    let start = world().airports[0].runways[0].start;
    let route = vec![
        taxi_node("27", NodeKind::Runway, NodeBehavior::HoldShort, start),
        taxi_node("B", NodeKind::Taxiway, NodeBehavior::GoTo, point(5, 5)),
    ];
    let mut a = taxiing(
        "AAL1",
        taxi_node("AP", NodeKind::Apron, NodeBehavior::GoTo, point(1, 1)),
        route,
    );
    let mut events = Vec::new();
    handle_takeoff_event(&mut a, name("27"), &mut events, &world());
    assert_eq!(events, vec![to("AAL1", EventKind::TaxiContinue)]);
    match &a.state {
        AircraftState::Taxiing { waypoints, .. } => {
            assert_eq!(
                waypoints[0],
                taxi_node("27", NodeKind::Runway, NodeBehavior::Takeoff, start)
            );
            assert_eq!(waypoints[1].behavior, NodeBehavior::GoTo);
        }
        _ => panic!("not taxiing"),
    }
}

#[test]
fn takeoff_from_an_unknown_runway_or_in_flight_is_ignored() {
    let mut a = on_runway("AAL1");
    assert_eq!(apply(&mut a, EventKind::Takeoff(name("09"))), vec![]);
    assert_eq!(a, on_runway("AAL1"));
    let mut b = plane("AAL2");
    assert_eq!(apply(&mut b, EventKind::Takeoff(name("27"))), vec![]);
    assert_eq!(b, plane("AAL2"));
    let mut c = taxiing(
        "AAL3",
        taxi_node("AP", NodeKind::Apron, NodeBehavior::GoTo, point(1, 1)),
        vec![],
    );
    assert_eq!(apply(&mut c, EventKind::Takeoff(name("27"))), vec![]);
}

// Events on the ground.

fn with_sub_state(state: TaxiingState) -> Aircraft {
    let mut a = on_runway("AAL1");
    a.speed = knots(12);
    a.target.speed = knots(5);
    if let AircraftState::Taxiing { state: sub, .. } = &mut a.state {
        *sub = state;
    }
    a
}

fn sub_state(a: &Aircraft) -> TaxiingState {
    match &a.state {
        AircraftState::Taxiing { state, .. } => *state,
        _ => panic!("not taxiing"),
    }
}

#[test]
fn taxi_continue_aims_for_taxi_speed() {
    for (before, after) in [
        (TaxiingState::Armed, TaxiingState::Armed),
        (TaxiingState::Override, TaxiingState::Override),
        (TaxiingState::Holding, TaxiingState::Armed),
        (TaxiingState::Stopped, TaxiingState::Override),
    ] {
        let mut a = with_sub_state(before);
        assert_eq!(apply(&mut a, EventKind::TaxiContinue), vec![]);
        assert_eq!(sub_state(&a), after);
        assert_eq!(a.target.speed, knots(20));
        assert_eq!(a.speed, knots(12));
    }
}

#[test]
fn taxi_continue_off_the_taxiways_does_nothing() {
    let mut a = parked("AAL1", "A1", point(0, 0));
    apply(&mut a, EventKind::TaxiContinue);
    assert_eq!(a, parked("AAL1", "A1", point(0, 0)));
    let mut b = plane("AAL2");
    apply(&mut b, EventKind::TaxiContinue);
    assert_eq!(b, plane("AAL2"));
}

#[test]
fn taxi_hold_stops_at_once() {
    let mut a = with_sub_state(TaxiingState::Armed);
    assert_eq!(apply(&mut a, EventKind::TaxiHold { and_state: false }), vec![]);
    assert_eq!(sub_state(&a), TaxiingState::Armed);
    assert_eq!((a.speed, a.target.speed), (0, 0));
    let mut b = with_sub_state(TaxiingState::Override);
    apply(&mut b, EventKind::TaxiHold { and_state: true });
    assert_eq!(sub_state(&b), TaxiingState::Holding);
    assert_eq!((b.speed, b.target.speed), (0, 0));
    let mut c = parked("AAL3", "A1", point(0, 0));
    c.speed = 5;
    c.target.speed = 7;
    apply(&mut c, EventKind::TaxiHold { and_state: true });
    assert_eq!((c.speed, c.target.speed), (0, 0));
    let mut d = cruising("AAL4", point(0, 0), 0, feet(9_000));
    apply(&mut d, EventKind::TaxiHold { and_state: true });
    assert_eq!(d.speed, knots(250));
}

#[test]
fn line_up_lines_up_at_the_runway_at_the_end_of_the_route() {
    let start = world().airports[0].runways[0].start;
    let route = vec![taxi_node("27", NodeKind::Runway, NodeBehavior::HoldShort, start)];
    let mut a = taxiing(
        "AAL1",
        taxi_node("B", NodeKind::Taxiway, NodeBehavior::GoTo, point(1, 1)),
        route,
    );
    assert_eq!(apply(&mut a, EventKind::LineUp(name("27"))), vec![to("AAL1", EventKind::TaxiContinue)]);
    match &a.state {
        AircraftState::Taxiing { waypoints, .. } => {
            assert_eq!(waypoints[0].behavior, NodeBehavior::LineUp)
        }
        _ => panic!("not taxiing"),
    }
}

#[test]
fn line_up_for_another_runway_does_nothing() {
    let start = world().airports[0].runways[0].start;
    let route = vec![taxi_node("27", NodeKind::Runway, NodeBehavior::HoldShort, start)];
    let current = taxi_node("B", NodeKind::Taxiway, NodeBehavior::GoTo, point(1, 1));
    let mut a = taxiing("AAL1", current, route.clone());
    assert_eq!(apply(&mut a, EventKind::LineUp(name("09"))), vec![]);
    assert_eq!(a, taxiing("AAL1", current, route));
    let mut b = plane("AAL2");
    assert_eq!(apply(&mut b, EventKind::LineUp(name("27"))), vec![]);
    let mut c = on_runway("AAL3");
    assert_eq!(apply(&mut c, EventKind::LineUp(name("27"))), vec![]);
    assert_eq!(c, on_runway("AAL3"));
}

fn destination(text: &str, kind: NodeKind, behavior: NodeBehavior) -> Node<()> {
    Node { name: name(text), kind, behavior, data: () }
}

#[test]
fn taxi_plans_the_way_and_reverses_it() {
    let gate_pos = point(feet(3_500), feet(-1_000));
    let mut a = parked("AAL1", "A1", gate_pos);
    let events = apply(
        &mut a,
        EventKind::Taxi(vec![
            destination("B", NodeKind::Taxiway, NodeBehavior::GoTo),
            destination("27", NodeKind::Runway, NodeBehavior::HoldShort),
        ]),
    );
    assert_eq!(events, vec![to("AAL1", EventKind::TaxiContinue)]);
    assert_eq!(
        a.state,
        AircraftState::Taxiing {
            current: taxi_node("A1", NodeKind::Gate, NodeBehavior::Park, gate_pos),
            waypoints: vec![
                taxi_node("27", NodeKind::Runway, NodeBehavior::HoldShort, point(feet(3_900), 0)),
                taxi_node("B", NodeKind::Taxiway, NodeBehavior::GoTo, point(feet(3_900), feet(-900))),
                taxi_node("AP", NodeKind::Apron, NodeBehavior::GoTo, point(feet(3_500), feet(-900))),
            ],
            state: TaxiingState::Armed,
        }
    );
}

#[test]
fn taxi_to_a_gate_parks_at_the_position_of_that_gate() {
    let start = world().airports[0].runways[0].start;
    let mut a = on_runway("AAL1");
    if let AircraftState::Taxiing { state, .. } = &mut a.state {
        *state = TaxiingState::Override;
    }
    let events = apply(
        &mut a,
        EventKind::Taxi(vec![destination("A2", NodeKind::Gate, NodeBehavior::Park)]),
    );
    assert_eq!(events, vec![to("AAL1", EventKind::TaxiContinue)]);
    assert_eq!(
        a.state,
        AircraftState::Taxiing {
            current: taxi_node("27", NodeKind::Runway, NodeBehavior::GoTo, start),
            waypoints: vec![
                taxi_node("A2", NodeKind::Gate, NodeBehavior::Park, point(feet(3_200), feet(-1_000))),
                taxi_node("A2", NodeKind::Gate, NodeBehavior::Park, point(feet(3_200), feet(-900))),
                taxi_node("AP", NodeKind::Apron, NodeBehavior::GoTo, point(feet(3_900), feet(-900))),
                taxi_node("B", NodeKind::Taxiway, NodeBehavior::GoTo, point(feet(3_900), 0)),
            ],
            state: TaxiingState::Override,
        }
    );
}

#[test]
fn taxi_skips_the_place_where_the_aircraft_stands() {
    let mut a = on_runway("AAL1");
    let events = apply(
        &mut a,
        EventKind::Taxi(vec![
            destination("27", NodeKind::Runway, NodeBehavior::GoTo),
            destination("B", NodeKind::Taxiway, NodeBehavior::GoTo),
        ]),
    );
    assert_eq!(events, vec![to("AAL1", EventKind::TaxiContinue)]);
    match &a.state {
        AircraftState::Taxiing { waypoints, .. } => assert_eq!(
            waypoints,
            &vec![taxi_node("B", NodeKind::Taxiway, NodeBehavior::GoTo, point(feet(3_900), 0))]
        ),
        _ => panic!("not taxiing"),
    }
}

#[test]
fn taxi_without_a_route_changes_nothing() {
    let mut a = on_runway("AAL1");
    let events = apply(
        &mut a,
        EventKind::Taxi(vec![
            destination("B", NodeKind::Taxiway, NodeBehavior::GoTo),
            destination("Z", NodeKind::Taxiway, NodeBehavior::GoTo),
        ]),
    );
    assert_eq!(events, vec![]);
    assert_eq!(a, on_runway("AAL1"));
    let mut b = on_runway("AAL2");
    assert_eq!(apply(&mut b, EventKind::Taxi(vec![])), vec![]);
    assert_eq!(b, on_runway("AAL2"));
    let mut c = on_runway("AAL3");
    let here = destination("27", NodeKind::Runway, NodeBehavior::GoTo);
    assert_eq!(apply(&mut c, EventKind::Taxi(vec![here])), vec![]);
    assert_eq!(c, on_runway("AAL3"));
}

#[test]
fn taxi_to_where_the_leg_before_ends_changes_nothing() {
    let mut a = on_runway("AAL1");
    let events = apply(
        &mut a,
        EventKind::Taxi(vec![
            destination("B", NodeKind::Taxiway, NodeBehavior::GoTo),
            destination("B", NodeKind::Taxiway, NodeBehavior::GoTo),
            destination("AP", NodeKind::Apron, NodeBehavior::GoTo),
        ]),
    );
    assert_eq!(events, vec![]);
    assert_eq!(a, on_runway("AAL1"));
}

#[test]
fn taxi_is_for_aircraft_on_the_ground_at_a_known_airport() {
    let route = vec![destination("B", NodeKind::Taxiway, NodeBehavior::GoTo)];
    let mut a = plane("AAL1");
    assert_eq!(apply(&mut a, EventKind::Taxi(route.clone())), vec![]);
    assert_eq!(a, plane("AAL1"));
    let mut b = on_runway("AAL2");
    b.airspace = None;
    assert_eq!(apply(&mut b, EventKind::Taxi(route.clone())), vec![]);
    let mut c = plane("AAL3");
    let mut events = Vec::new();
    handle_taxi_event(&mut c, &route, &world().airports[0].pathfinder, &mut events, &world());
    assert_eq!(events, vec![to("AAL3", EventKind::TaxiContinue)]);
    assert_eq!(c, plane("AAL3"));
}

// Requests, callouts and segments.

fn callout(id: &str, frequency: i64, reply: CommandReply) -> Event {
    to(
        id,
        EventKind::Callout(CommandWithFreq { id: name(id), frequency, reply, tasks: vec![] }),
    )
}

#[test]
fn ident_says_the_name_on_the_frequency() {
    let mut a = plane("AAL1");
    assert_eq!(apply(&mut a, EventKind::Ident), vec![callout("AAL1", 118_500, CommandReply::Empty)]);
    assert_eq!(a, plane("AAL1"));
}

#[test]
fn a_callout_is_left_to_others() {
    let mut a = plane("AAL1");
    let said = CommandWithFreq::new(name("AAL1"), 1, CommandReply::Empty, vec![Task::Ident]);
    assert_eq!(apply(&mut a, EventKind::Callout(said)), vec![]);
    assert_eq!(a, plane("AAL1"));
}

#[test]
fn callout_tara_reports_the_altitude_to_go_back_to() {
    let mut a = plane("AAL1");
    a.target.altitude = feet(12_000);
    let expected = callout("AAL1", 118_500, CommandReply::TARAResolved { assigned_alt: feet(12_000) });
    assert_eq!(apply(&mut a, EventKind::CalloutTARA), vec![expected.clone()]);
    let mut events = Vec::new();
    handle_callout_tara(&mut a, &mut events);
    assert_eq!(events, vec![expected]);
}

#[test]
fn delete_is_passed_on() {
    let mut a = plane("AAL1");
    assert_eq!(apply(&mut a, EventKind::Delete), vec![to("AAL1", EventKind::Delete)]);
    assert_eq!(a, plane("AAL1"));
}

#[test]
fn a_segment_event_sets_the_segment() {
    let mut a = plane("AAL1");
    a.flight_time = Some(4);
    assert_eq!(apply(&mut a, EventKind::Segment(FlightSegment::Cruise, FlightSegment::Climb)), vec![]);
    assert_eq!(a.segment, FlightSegment::Climb);
    assert_eq!(a.flight_time, Some(4));
    assert_eq!(apply(&mut a, EventKind::Segment(FlightSegment::Parked, FlightSegment::Dormant)), vec![]);
    assert_eq!(a.segment, FlightSegment::Dormant);
    assert_eq!(a.flight_time, None);
}

#[test]
fn parked_after_boarding_reports_ready_for_taxi() {
    let mut a = parked("AAL1", "A1", point(0, 0));
    a.segment = FlightSegment::Boarding;
    let events = apply(&mut a, EventKind::Segment(FlightSegment::Boarding, FlightSegment::Parked));
    assert_eq!(
        events,
        vec![callout("AAL1", 121_900, CommandReply::ReadyForTaxi { gate: name("A1") })]
    );
    assert_eq!(a.segment, FlightSegment::Parked);
    assert_eq!(a.frequency, 121_900);
    let mut b = parked("AAL2", "A1", point(0, 0));
    b.airspace = None;
    let mut events = Vec::new();
    handle_parked_transition(&mut b, &mut events, &world());
    assert_eq!(events, vec![]);
    assert_eq!(b.frequency, 118_500);
}

#[test]
fn parked_after_taxiing_in_goes_dormant() {
    let mut a = parked("AAL1", "A1", point(0, 0));
    let events = apply(&mut a, EventKind::Segment(FlightSegment::TaxiArr, FlightSegment::Parked));
    assert_eq!(
        events,
        vec![to("AAL1", EventKind::Segment(FlightSegment::Parked, FlightSegment::Dormant))]
    );
}

fn arriving(id: &str) -> Aircraft {
    let mut a = cruising(id, point(200 * NM, 20 * NM), degrees(180), feet(12_000));
    a.airspace = Some(name("KLAX"));
    a.segment = FlightSegment::Arrival;
    a
}

#[test]
fn approach_after_arrival_turns_to_the_airport_and_reports_in() {
    let mut a = arriving("AAL1");
    let events = apply(&mut a, EventKind::Segment(FlightSegment::Arrival, FlightSegment::Approach));
    assert_eq!(
        events,
        vec![callout(
            "AAL1",
            124_500,
            CommandReply::ArriveInAirspace { direction: CompassPoint::North, altitude: feet(12_000) }
        )]
    );
    assert_eq!(a.segment, FlightSegment::Approach);
    assert_eq!(a.frequency, 124_500);
    assert_eq!(a.target.heading, degrees(180));
}

#[test]
fn approach_at_another_airport_than_the_destination_changes_nothing_else() {
    let mut a = arriving("AAL1");
    a.airspace = Some(name("KSFO"));
    let events = apply(&mut a, EventKind::Segment(FlightSegment::Arrival, FlightSegment::Approach));
    assert_eq!(events, vec![]);
    assert_eq!(a.segment, FlightSegment::Approach);
    assert_eq!(a.frequency, 118_500);
    let mut b = arriving("AAL2");
    let events = apply(&mut b, EventKind::Segment(FlightSegment::Cruise, FlightSegment::Approach));
    assert_eq!(events, vec![]);
    assert_eq!(b.frequency, 118_500);
}

fn diverting_world() -> World {
    let mut world = world();
    world.airports[1].status.divert_arrivals = true;
    world.airports.push(airport("KSAN", point(300 * NM, -100 * NM)));
    world
}

#[test]
fn a_diverted_arrival_flies_to_another_airport() {
    let world = diverting_world();
    let mut a = arriving("AAL1");
    a.flight_plan.waypoints = three_waypoints();
    let mut events = Vec::new();
    handle_approach_transition(&mut a, &world, &mut events, &mut rng());
    assert_eq!(events, vec![to("AAL1", EventKind::ResumeOwnNavigation { diversion: true })]);
    assert_eq!(a.segment, FlightSegment::Approach);
    assert_eq!(a.frequency, 124_500);
    assert_eq!(a.flight_plan.departing, name("KLAX"));
    assert!(a.flight_plan.arriving == name("KSFO") || a.flight_plan.arriving == name("KSAN"));
    assert_eq!(a.target.heading, degrees(180));

    let old_star = point(170 * NM, 0);
    let mut sent = Vec::new();
    handle_aircraft_event(
        &mut a,
        &EventKind::ResumeOwnNavigation { diversion: true },
        &mut sent,
        &world,
        &mut rng(),
    );
    assert_eq!(
        sent,
        vec![
            to("AAL1", EventKind::SpeedAtOrAbove(knots(450))),
            to(
                "AAL1",
                EventKind::AltitudeAtOrAbove(if a.flight_plan.arriving == name("KSFO") {
                    feet(38_000)
                } else {
                    feet(37_000)
                })
            ),
            to("AAL1", EventKind::Frequency(132_100)),
        ]
    );
    assert!(a.flight_plan.waypoints.iter().all(|w| w.name != Name(NAME_SID)));
    assert!(a.flight_plan.waypoints.iter().all(|w| w.data.pos != old_star));
    assert_eq!(a.flight_plan.waypoints.last().unwrap().name, Name(NAME_STAR));
    assert_eq!(a.flight_plan.waypoint_index, 0);
}

#[test]
fn every_draw_of_a_diversion_is_another_airport() {
    let world = diverting_world();
    let mut seen_first = false;
    let mut seen_second = false;
    for seed in 0..64 {
        let mut a = arriving("AAL1");
        let mut events = Vec::new();
        handle_approach_transition(&mut a, &world, &mut events, &mut Rng::with_seed(seed));
        assert_ne!(a.flight_plan.arriving, name("KLAX"));
        seen_first |= a.flight_plan.arriving == name("KSFO");
        seen_second |= a.flight_plan.arriving == name("KSAN");
    }
    assert!(seen_first && seen_second);
}

#[test]
fn a_diversion_without_another_airport_only_tunes_in() {
    let mut world = world();
    world.airports[1].status.divert_arrivals = true;
    world.airports.remove(0);
    let mut a = arriving("AAL1");
    let mut events = Vec::new();
    handle_approach_transition(&mut a, &world, &mut events, &mut rng());
    assert_eq!(events, vec![]);
    assert_eq!(a.flight_plan.arriving, name("KLAX"));
    assert_eq!(a.frequency, 124_500);
}

#[test]
fn a_task_becomes_the_event_of_its_kind() {
    assert_eq!(EventKind::from(Task::Altitude(5)), EventKind::Altitude(5));
    assert_eq!(EventKind::from(Task::Direct(name("ONE"))), EventKind::Direct(name("ONE")));
    assert_eq!(EventKind::from(Task::Frequency(7)), EventKind::Frequency(7));
    assert_eq!(EventKind::from(Task::GoAround), EventKind::GoAround);
    assert_eq!(EventKind::from(Task::Heading(9)), EventKind::Heading(9));
    assert_eq!(EventKind::from(Task::Ident), EventKind::Ident);
    assert_eq!(EventKind::from(Task::Land(name("27"))), EventKind::Land(name("27")));
    assert_eq!(
        EventKind::from(Task::NamedFrequency(name("tower"))),
        EventKind::NamedFrequency(Name(NAME_TOWER))
    );
    assert_eq!(
        EventKind::from(Task::ResumeOwnNavigation),
        EventKind::ResumeOwnNavigation { diversion: false }
    );
    assert_eq!(EventKind::from(Task::Speed(3)), EventKind::Speed(3));
    assert_eq!(EventKind::from(Task::Takeoff(name("27"))), EventKind::Takeoff(name("27")));
    let route = vec![destination("B", NodeKind::Taxiway, NodeBehavior::GoTo)];
    assert_eq!(EventKind::from(Task::Taxi(route.clone())), EventKind::Taxi(route));
    assert_eq!(EventKind::from(Task::TaxiContinue), EventKind::TaxiContinue);
    assert_eq!(EventKind::from(Task::TaxiHold), EventKind::TaxiHold { and_state: true });
    assert_eq!(EventKind::from(Task::LineUp(name("27"))), EventKind::LineUp(name("27")));
    assert_eq!(EventKind::from(Task::Delete), EventKind::Delete);
    assert_eq!(UIEvent::from(UICommand::Pause), UIEvent::Pause);
    let event = AircraftEvent::new(name("AAL1"), EventKind::Ident);
    assert_eq!(Event::from(event.clone()), Event::Aircraft(event));
    assert_eq!(EventKind::Taxi(vec![]).duplicate(), EventKind::Taxi(vec![]));
}

// The collision avoidance pass.

fn head_on() -> (Aircraft, Aircraft) {
    (
        cruising("AAL1", point(0, 0), degrees(90), feet(10_000)),
        cruising("AAL2", point(feet(5_000), 0), degrees(270), feet(10_000)),
    )
}

#[test]
fn head_on_within_reach_is_a_resolution_advisory() {
    let (a, mut b) = head_on();
    assert_eq!(advise_pair(&a, &b), Some((TCAS::Climb, TCAS::Descend)));
    b.altitude = feet(10_500);
    assert_eq!(advise_pair(&a, &b), Some((TCAS::Descend, TCAS::Climb)));
    b.altitude = feet(9_001);
    assert_eq!(advise_pair(&a, &b), Some((TCAS::Climb, TCAS::Descend)));
}

#[test]
fn the_resolution_reach_is_the_way_covered_while_descending() {
    // Each covers 500000 * 250000 * 168781 / (33333 * 100000) = 6329350.
    let (a, mut b) = head_on();
    b.pos = point(12_658_700, 0);
    assert_eq!(advise_pair(&a, &b), Some((TCAS::Climb, TCAS::Descend)));
    b.pos = point(12_658_701, 0);
    assert_eq!(advise_pair(&a, &b), Some((TCAS::Warning, TCAS::Warning)));
    b.pos = point(25_317_400, 0);
    assert_eq!(advise_pair(&a, &b), Some((TCAS::Warning, TCAS::Warning)));
    b.pos = point(25_317_401, 0);
    assert_eq!(advise_pair(&a, &b), None);
}

#[test]
fn the_vertical_thresholds_are_a_thousand_and_two_thousand_feet() {
    let (a, mut b) = head_on();
    b.altitude = feet(11_000) - 1;
    assert_eq!(advise_pair(&a, &b), Some((TCAS::Descend, TCAS::Climb)));
    b.altitude = feet(11_000);
    assert_eq!(advise_pair(&a, &b), Some((TCAS::Warning, TCAS::Warning)));
    b.altitude = feet(12_000) - 1;
    assert_eq!(advise_pair(&a, &b), Some((TCAS::Warning, TCAS::Warning)));
    b.altitude = feet(12_000);
    assert_eq!(advise_pair(&a, &b), None);
}

#[test]
fn traffic_after_a_resolution_holds() {
    let (mut a, mut b) = head_on();
    a.tcas = TCAS::Climb;
    b.tcas = TCAS::Warning;
    b.altitude = feet(11_500);
    assert_eq!(advise_pair(&a, &b), Some((TCAS::Hold, TCAS::Warning)));
}

#[test]
fn no_advisory_low_on_the_ground_or_facing_away() {
    let (a, b) = head_on();
    let mut low = b.clone();
    low.altitude = feet(2_000);
    assert_eq!(advise_pair(&a, &low), None);
    let mut grounded = b.clone();
    grounded.state = AircraftState::Landing {
        runway: world().airports[0].runways[0],
        state: LandingState::Approach,
    };
    assert_eq!(advise_pair(&a, &grounded), None);
    let mut away_a = a.clone();
    away_a.heading = degrees(270);
    let mut away_b = b.clone();
    away_b.heading = degrees(90);
    assert_eq!(advise_pair(&away_a, &away_b), None);
    assert_eq!(advise_pair(&a, &away_b), Some((TCAS::Climb, TCAS::Descend)));
}

#[test]
fn a_resolution_that_ends_is_called_out_once() {
    let (a, b) = head_on();
    let mut engine = engine_with(vec![a, b]);
    assert_eq!(engine.handle_tcas(), vec![]);
    assert_eq!(engine.game.aircraft[0].tcas, TCAS::Climb);
    assert_eq!(engine.game.aircraft[1].tcas, TCAS::Descend);
    engine.game.aircraft[1].altitude = feet(7_500);
    assert_eq!(
        engine.handle_tcas(),
        vec![to("AAL1", EventKind::CalloutTARA), to("AAL2", EventKind::CalloutTARA)]
    );
    assert_eq!(engine.game.aircraft[0].tcas, TCAS::Idle);
    assert_eq!(engine.game.aircraft[1].tcas, TCAS::Idle);
    assert_eq!(engine.handle_tcas(), vec![]);
}

#[test]
fn the_lower_aircraft_descends() {
    let (a, mut b) = head_on();
    b.altitude = feet(9_500);
    let mut engine = engine_with(vec![b, a]);
    engine.handle_tcas();
    assert_eq!(engine.game.aircraft[0].tcas, TCAS::Descend);
    assert_eq!(engine.game.aircraft[1].tcas, TCAS::Climb);
}

#[test]
fn a_later_pair_overrides_an_earlier_one() {
    let a = cruising("AAL1", point(0, 0), degrees(90), feet(10_000));
    let b = cruising("AAL2", point(feet(5_000), 0), degrees(270), feet(9_100));
    let c = cruising("AAL3", point(0, feet(20_000)), degrees(180), feet(11_500));
    assert_eq!(advise_pair(&a, &b), Some((TCAS::Climb, TCAS::Descend)));
    assert_eq!(advise_pair(&a, &c), Some((TCAS::Warning, TCAS::Warning)));
    assert_eq!(advise_pair(&b, &c), None);
    let mut engine = engine_with(vec![a.clone(), b.clone(), c.clone()]);
    engine.handle_tcas();
    assert_eq!(engine.game.aircraft[0].tcas, TCAS::Warning);
    assert_eq!(engine.game.aircraft[1].tcas, TCAS::Descend);
    assert_eq!(engine.game.aircraft[2].tcas, TCAS::Warning);
    // With the third aircraft first its pair with the first is looked at
    // before the pair of the first and the second.
    let mut engine = engine_with(vec![c, a, b]);
    engine.handle_tcas();
    assert_eq!(engine.game.aircraft[0].tcas, TCAS::Warning);
    assert_eq!(engine.game.aircraft[1].tcas, TCAS::Climb);
    assert_eq!(engine.game.aircraft[2].tcas, TCAS::Descend);
}

#[test]
fn a_warning_that_ends_is_not_called_out() {
    let (mut a, mut b) = head_on();
    a.tcas = TCAS::Warning;
    b.tcas = TCAS::Hold;
    b.pos = point(100 * NM, 0);
    let mut engine = engine_with(vec![a, b]);
    assert_eq!(engine.handle_tcas(), vec![]);
    assert_eq!(engine.game.aircraft[0].tcas, TCAS::Idle);
    assert_eq!(engine.game.aircraft[1].tcas, TCAS::Idle);
}

// The ground conflict pass.

fn rolling(id: &str, pos: Point, heading: i64, state: TaxiingState) -> Aircraft {
    Aircraft {
        pos,
        heading,
        speed: knots(15),
        target: AircraftTargets { heading, altitude: 0, speed: knots(20) },
        airspace: Some(name("KSFO")),
        state: AircraftState::Taxiing {
            current: taxi_node("B", NodeKind::Taxiway, NodeBehavior::GoTo, pos),
            waypoints: vec![],
            state,
        },
        segment: FlightSegment::TaxiDep,
        ..plane(id)
    }
}

#[test]
fn an_armed_aircraft_stops_for_traffic_ahead() {
    let behind = rolling("AAL1", point(0, 0), degrees(90), TaxiingState::Armed);
    let ahead = rolling("AAL2", point(feet(100), 0), degrees(90), TaxiingState::Armed);
    let mut engine = engine_with(vec![behind, ahead]);
    let events = engine.taxi_collisions();
    assert_eq!(events, vec![to("AAL1", EventKind::TaxiHold { and_state: false })]);
    assert_eq!(sub_state(&engine.game.aircraft[0]), TaxiingState::Stopped);
    assert_eq!(sub_state(&engine.game.aircraft[1]), TaxiingState::Armed);
    assert_eq!(engine.taxi_collisions(), vec![]);
    assert_eq!(sub_state(&engine.game.aircraft[0]), TaxiingState::Stopped);
}

#[test]
fn a_stopped_aircraft_goes_on_when_the_traffic_is_gone() {
    let behind = rolling("AAL1", point(0, 0), degrees(90), TaxiingState::Stopped);
    let ahead = rolling("AAL2", point(feet(160), 0), degrees(90), TaxiingState::Override);
    let mut engine = engine_with(vec![behind, ahead]);
    let events = engine.taxi_collisions();
    assert_eq!(events, vec![to("AAL1", EventKind::TaxiContinue)]);
    assert_eq!(sub_state(&engine.game.aircraft[0]), TaxiingState::Armed);
    assert_eq!(sub_state(&engine.game.aircraft[1]), TaxiingState::Armed);
}

#[test]
fn the_cone_reaches_a_hundred_and_fifty_feet_ahead() {
    for (distance, stops) in [(150, true), (151, false), (1, true)] {
        let behind = rolling("AAL1", point(0, 0), degrees(90), TaxiingState::Armed);
        let ahead = rolling("AAL2", point(feet(distance), 0), degrees(90), TaxiingState::Armed);
        let mut engine = engine_with(vec![behind, ahead]);
        engine.taxi_collisions();
        assert_eq!(sub_state(&engine.game.aircraft[0]) == TaxiingState::Stopped, stops);
    }
}

#[test]
fn the_cone_reaches_a_hundred_and_twenty_feet_to_the_side() {
    for (distance, stops) in [(120, true), (121, false)] {
        let one = rolling("AAL1", point(0, 0), degrees(90), TaxiingState::Armed);
        let beside = rolling("AAL2", point(0, feet(-distance)), degrees(90), TaxiingState::Armed);
        let mut engine = engine_with(vec![one, beside]);
        engine.taxi_collisions();
        assert_eq!(sub_state(&engine.game.aircraft[0]) == TaxiingState::Stopped, stops);
        assert_eq!(sub_state(&engine.game.aircraft[1]) == TaxiingState::Stopped, stops);
    }
}

#[test]
fn holding_and_overriding_aircraft_do_not_stop_for_traffic() {
    for state in [TaxiingState::Holding, TaxiingState::Override] {
        let behind = rolling("AAL1", point(0, 0), degrees(90), state);
        let ahead = rolling("AAL2", point(feet(100), 0), degrees(90), TaxiingState::Armed);
        let mut engine = engine_with(vec![behind, ahead]);
        assert_eq!(engine.taxi_collisions(), vec![]);
        assert_eq!(sub_state(&engine.game.aircraft[0]), state);
    }
}

#[test]
fn a_parked_aircraft_is_traffic_but_two_parked_are_no_pair() {
    let behind = rolling("AAL1", point(0, 0), degrees(90), TaxiingState::Armed);
    let at_gate = parked("AAL2", "A1", point(feet(100), 0));
    let mut engine = engine_with(vec![behind, at_gate.clone()]);
    engine.taxi_collisions();
    assert_eq!(sub_state(&engine.game.aircraft[0]), TaxiingState::Stopped);
    let mut second = parked("AAL3", "A2", point(0, 0));
    second.heading = degrees(90);
    let mut engine = engine_with(vec![second.clone(), at_gate.clone()]);
    assert_eq!(engine.taxi_collisions(), vec![]);
    assert_eq!(engine.game.aircraft, vec![second, at_gate]);
}

#[test]
fn no_conflict_off_automated_ground_in_flight_or_too_fast() {
    let behind = rolling("AAL1", point(0, 0), degrees(90), TaxiingState::Armed);
    let ahead = rolling("AAL2", point(feet(100), 0), degrees(90), TaxiingState::Armed);
    let mut engine = engine_with(vec![behind.clone(), ahead.clone()]);
    engine.world.airports[0].status.automate_ground = false;
    assert_eq!(engine.taxi_collisions(), vec![]);
    let mut elsewhere = ahead.clone();
    elsewhere.airspace = Some(name("KLAX"));
    let mut engine = engine_with(vec![behind.clone(), elsewhere]);
    assert_eq!(engine.taxi_collisions(), vec![]);
    let mut nowhere_a = behind.clone();
    nowhere_a.airspace = None;
    let mut nowhere_b = ahead.clone();
    nowhere_b.airspace = None;
    let mut engine = engine_with(vec![nowhere_a, nowhere_b]);
    assert_eq!(engine.taxi_collisions(), vec![]);
    let mut fast = behind.clone();
    fast.speed = knots(20) + 1;
    let mut engine = engine_with(vec![fast, ahead.clone()]);
    assert_eq!(engine.taxi_collisions(), vec![]);
    let mut flying = ahead.clone();
    flying.state = AircraftState::Flying;
    let mut engine = engine_with(vec![behind, flying]);
    assert_eq!(engine.taxi_collisions(), vec![]);
}

// The gates.

#[test]
fn a_gate_is_free_unless_an_aircraft_is_at_it_or_on_its_way_to_it() {
    let way_to_gate = taxiing(
        "AAL2",
        taxi_node("B", NodeKind::Taxiway, NodeBehavior::GoTo, point(1, 1)),
        vec![taxi_node("A2", NodeKind::Gate, NodeBehavior::Park, point(2, 2))],
    );
    let mut engine = engine_with(vec![]);
    engine.compute_available_gates();
    assert_eq!(engine.gates, vec![vec![vec![true, true]], vec![vec![true, true]]]);
    engine.add_aircraft(parked("AAL1", "A1", point(0, 0)));
    engine.compute_available_gates();
    assert_eq!(engine.gates, vec![vec![vec![false, true]], vec![vec![false, true]]]);
    engine.add_aircraft(way_to_gate);
    engine.compute_available_gates();
    assert_eq!(engine.gates, vec![vec![vec![false, false]], vec![vec![false, false]]]);
}

#[test]
fn a_gate_is_taken_whatever_airspace_the_aircraft_is_in() {
    let mut nowhere = parked("AAL1", "A2", point(0, 0));
    nowhere.airspace = None;
    let mut engine = engine_with(vec![nowhere]);
    engine.compute_available_gates();
    assert_eq!(engine.gates, vec![vec![vec![true, false]], vec![vec![true, false]]]);
    engine.config = EngineConfig::Minimal;
    engine.tick().unwrap();
    assert_eq!(engine.gates, vec![vec![vec![true, false]], vec![vec![true, false]]]);
}

#[test]
fn a_gate_is_taken_by_an_aircraft_that_stands_at_it_taxiing() {
    let at_gate = taxiing(
        "AAL1",
        taxi_node("A2", NodeKind::Gate, NodeBehavior::Park, point(2, 2)),
        vec![],
    );
    let mut elsewhere = at_gate.clone();
    elsewhere.id = name("AAL2");
    elsewhere.airspace = Some(name("KLAX"));
    let not_a_gate = taxiing(
        "AAL3",
        taxi_node("A1", NodeKind::Taxiway, NodeBehavior::GoTo, point(2, 2)),
        vec![taxi_node("A1", NodeKind::Apron, NodeBehavior::GoTo, point(2, 2))],
    );
    let mut engine = engine_with(vec![at_gate, elsewhere, not_a_gate, plane("AAL4")]);
    engine.compute_available_gates();
    assert_eq!(engine.gates, vec![vec![vec![true, false]], vec![vec![true, false]]]);
}

// The approach controller.

fn inbound(id: &str, miles: i64) -> Aircraft {
    let mut a = cruising(id, point(0, -miles * NM), 0, feet(12_000));
    a.segment = FlightSegment::Arrival;
    a.target.speed = knots(200);
    a.flight_plan.waypoints = vec![new_vor(name("FIX"), point(0, 0))];
    a
}

#[test]
fn arrivals_of_a_stream_are_spaced() {
    let mut engine = engine_with(vec![inbound("AAL1", 6), inbound("AAL2", 10), inbound("AAL3", 14)]);
    let mut events = Vec::new();
    engine.update_auto_approach(&mut events);
    assert_eq!(
        events,
        vec![
            to("AAL1", EventKind::Speed(knots(250))),
            to("AAL2", EventKind::Speed(218_000)),
            to("AAL3", EventKind::Speed(218_000)),
        ]
    );
    assert!(engine.game.aircraft.iter().all(|a| a.flight_plan.course_offset == 0));
}

#[test]
fn the_order_in_the_stream_is_by_distance_not_by_place_in_the_fleet() {
    let mut engine = engine_with(vec![inbound("AAL1", 14), inbound("AAL2", 6), inbound("AAL3", 12)]);
    let mut events = Vec::new();
    engine.update_auto_approach(&mut events);
    assert_eq!(
        events,
        vec![
            to("AAL1", EventKind::Speed(knots(170))),
            to("AAL2", EventKind::Speed(knots(250))),
            to("AAL3", EventKind::Speed(knots(250))),
        ]
    );
}

#[test]
fn a_close_follower_slows_down_and_steps_aside() {
    let mut leader = inbound("AAL1", 6);
    let mut follower = inbound("AAL2", 8);
    for a in [&mut leader, &mut follower] {
        a.flight_plan.waypoints =
            vec![new_vor(name("FIX"), point(0, 0)), new_vor(name("END"), point(10 * NM, 0))];
    }
    let mut engine = engine_with(vec![leader, follower]);
    let mut events = Vec::new();
    engine.update_auto_approach(&mut events);
    assert_eq!(
        events,
        vec![to("AAL1", EventKind::Speed(knots(250))), to("AAL2", EventKind::Speed(knots(170)))]
    );
    assert_eq!(engine.game.aircraft[0].flight_plan.course_offset, 0);
    assert_eq!(engine.game.aircraft[1].flight_plan.course_offset, -degrees(20));
}

#[test]
fn the_side_step_is_away_from_the_next_turn() {
    let mut leader = inbound("AAL1", 6);
    let mut follower = inbound("AAL2", 8);
    for a in [&mut leader, &mut follower] {
        a.flight_plan.waypoints =
            vec![new_vor(name("FIX"), point(0, 0)), new_vor(name("END"), point(-10 * NM, 0))];
    }
    let mut engine = engine_with(vec![leader, follower]);
    engine.update_auto_approach(&mut Vec::new());
    assert_eq!(engine.game.aircraft[1].flight_plan.course_offset, degrees(20));
    let mut engine = engine_with(vec![inbound("AAL1", 6), inbound("AAL2", 8)]);
    engine.game.aircraft[1].flight_plan.course_offset = degrees(20);
    engine.update_auto_approach(&mut Vec::new());
    assert_eq!(engine.game.aircraft[1].flight_plan.course_offset, 0);
}

#[test]
fn without_airports_the_controllers_do_nothing() {
    let mut follower = inbound("AAL2", 8);
    follower.flight_plan.course_offset = degrees(20);
    let mut engine = engine_with(vec![inbound("AAL1", 6), follower, parked("AAL3", "A1", point(0, 0))]);
    engine.world.airports.clear();
    let before = engine.game.aircraft.clone();
    let mut events = Vec::new();
    engine.update_auto_approach(&mut events);
    engine.update_auto_ground(&mut events);
    assert_eq!(events, vec![]);
    assert_eq!(engine.game.aircraft, before);
}

#[test]
fn no_speed_is_sent_to_an_aircraft_that_has_it_already() {
    let mut leader = inbound("AAL1", 6);
    leader.target.speed = knots(250);
    let mut engine = engine_with(vec![leader]);
    let mut events = Vec::new();
    engine.update_auto_approach(&mut events);
    assert_eq!(events, vec![]);
}

#[test]
fn streams_are_apart_by_airspace_and_last_waypoint() {
    let mut other_fix = inbound("AAL2", 7);
    other_fix.flight_plan.waypoints = vec![new_vor(name("OTHER"), point(0, 0))];
    let mut other_airspace = inbound("AAL3", 8);
    other_airspace.flight_plan.arriving = name("KSFO");
    let mut engine = engine_with(vec![inbound("AAL1", 6), other_fix, other_airspace]);
    let mut events = Vec::new();
    engine.update_auto_approach(&mut events);
    assert_eq!(
        events,
        vec![
            to("AAL1", EventKind::Speed(knots(250))),
            to("AAL2", EventKind::Speed(knots(250))),
            to("AAL3", EventKind::Speed(knots(250))),
        ]
    );
}

#[test]
fn aircraft_on_the_ground_landing_or_in_manual_airspace_are_not_spaced() {
    let mut lands = inbound("AAL2", 7);
    lands.segment = FlightSegment::Landing;
    let mut manual = inbound("AAL3", 8);
    manual.airspace = Some(name("KLAX"));
    let mut on_ground = inbound("AAL4", 9);
    on_ground.segment = FlightSegment::TaxiArr;
    let mut engine = engine_with(vec![inbound("AAL1", 6), lands, manual, on_ground]);
    engine.world.airports[1].status.automate_air = false;
    let mut events = Vec::new();
    engine.update_auto_approach(&mut events);
    assert_eq!(events, vec![to("AAL1", EventKind::Speed(knots(250)))]);
}

#[test]
fn aircraft_without_a_waypoint_left_fly_their_least_speed_behind_the_leader() {
    let mut first = inbound("AAL1", 6);
    first.flight_plan.waypoint_index = 1;
    let mut second = inbound("AAL2", 9);
    second.flight_plan.waypoint_index = 1;
    let mut engine = engine_with(vec![first, second]);
    let mut events = Vec::new();
    engine.update_auto_approach(&mut events);
    assert_eq!(
        events,
        vec![to("AAL1", EventKind::Speed(knots(250))), to("AAL2", EventKind::Speed(knots(170)))]
    );
}

#[test]
fn a_pattern_is_laid_out_on_the_side_of_the_aircraft() {
    let runway = world().airports[0].runways[0];
    let north = lay_pattern(point(20 * NM, 5 * NM), runway);
    assert_eq!(north.final_fix, point(64_761_200, 0));
    assert_eq!(north.base_fix, point(64_761_200, 30_380_600));
    assert_eq!(north.downwind_fix, point(125_522_400, 30_380_600));
    assert_eq!(north.crosswind_fix, point(125_522_400, 0));
    assert!(north.reversed);
    assert_eq!(north.side, 0);
    let south = lay_pattern(point(-20 * NM, -5 * NM), runway);
    assert_eq!(south.final_fix, point(64_761_200, 0));
    assert_eq!(south.base_fix, point(64_761_200, -30_380_600));
    assert_eq!(south.downwind_fix, point(4_000_000, -30_380_600));
    assert_eq!(south.crosswind_fix, point(4_000_000, 0));
    assert!(!south.reversed);
    assert_eq!(south.side, degrees(180));
}

fn on_approach(id: &str, pos: Point) -> Aircraft {
    let mut a = cruising(id, pos, degrees(270), feet(6_000));
    a.airspace = Some(name("KSFO"));
    a.segment = FlightSegment::Approach;
    a.flight_plan.departing = name("KLAX");
    a.flight_plan.arriving = name("KSFO");
    a.flight_plan.waypoints = vec![new_vor(Name(NAME_STAR), point(30 * NM, 0))];
    a.flight_plan.waypoint_index = 1;
    a
}

#[test]
fn an_aircraft_on_approach_gets_its_pattern_and_comes_down() {
    let mut engine = engine_with(vec![on_approach("AAL1", point(20 * NM, 5 * NM))]);
    let mut events = Vec::new();
    engine.update_auto_approach(&mut events);
    assert_eq!(
        events,
        vec![
            to(
                "AAL1",
                EventKind::AmendAndFollow(vec![
                    new_vor(name("CW"), point(125_522_400, 0)),
                    new_vor(name("UW"), point(125_522_400, 30_380_600)),
                    new_vor(name("BS"), point(64_761_200, 30_380_600)),
                    new_vor(name("27"), point(64_761_200, 0)),
                ])
            ),
            to("AAL1", EventKind::Altitude(feet(4_000))),
        ]
    );
}

#[test]
fn without_an_arrival_transition_there_is_no_pattern() {
    let mut a = on_approach("AAL1", point(20 * NM, 5 * NM));
    a.flight_plan.waypoints = vec![new_vor(name("FIX"), point(30 * NM, 0))];
    let mut engine = engine_with(vec![a]);
    let mut events = Vec::new();
    engine.update_auto_approach(&mut events);
    assert_eq!(events, vec![]);
}

fn at_final_fix(id: &str) -> Aircraft {
    let mut a = on_approach(id, point(64_761_200 + NM, 0));
    a.target.altitude = feet(3_000);
    a.target.speed = knots(250);
    a.flight_plan.waypoints = vec![
        new_vor(Name(NAME_STAR), point(30 * NM, 0)),
        new_vor(name("27"), point(64_761_200, 0)),
    ];
    a.flight_plan.waypoint_index = 1;
    a
}

#[test]
fn at_the_final_fix_an_aircraft_is_cleared_to_land() {
    let mut engine = engine_with(vec![at_final_fix("AAL1")]);
    let mut events = Vec::new();
    engine.update_auto_approach(&mut events);
    assert_eq!(
        events,
        vec![
            to("AAL1", EventKind::SpeedAtOrBelow(knots(180))),
            to("AAL1", EventKind::Land(name("27"))),
        ]
    );
}

#[test]
fn too_far_from_the_final_fix_there_is_no_clearance() {
    let mut a = at_final_fix("AAL1");
    a.pos = point(64_761_200 + 9_114_181, 0);
    let mut engine = engine_with(vec![a]);
    let mut events = Vec::new();
    engine.update_auto_approach(&mut events);
    assert_eq!(events, vec![]);
    engine.game.aircraft[0].pos = point(64_761_200 + 9_114_180, 0);
    engine.update_auto_approach(&mut events);
    assert_eq!(events.len(), 2);
}

#[test]
fn behind_a_landing_aircraft_the_approach_goes_round_once_more() {
    let mut ahead = landing("AAL2", LandingState::Established);
    ahead.pos = point(64_761_200 - 2 * NM, 0);
    let mut engine = engine_with(vec![at_final_fix("AAL1"), ahead]);
    let mut events = Vec::new();
    engine.update_auto_approach(&mut events);
    assert_eq!(
        events,
        vec![
            to(
                "AAL1",
                EventKind::AmendAndFollow(vec![
                    new_vor(name("DW"), point(-26_380_600, 0)),
                    new_vor(name("CW"), point(-26_380_600, -30_380_600)),
                ])
            ),
            to("AAL2", EventKind::NamedFrequency(Name(NAME_TOWER))),
        ]
    );
}

#[test]
fn landing_traffic_counts_within_three_and_a_half_miles() {
    for (apart, clear) in [(21_266_420, true), (21_266_419, false)] {
        let mut ahead = landing("AAL2", LandingState::Approach);
        ahead.pos = point(64_761_200 + NM - apart, 0);
        let mut engine = engine_with(vec![at_final_fix("AAL1"), ahead]);
        let mut events = Vec::new();
        engine.update_auto_approach(&mut events);
        assert_eq!(events.contains(&to("AAL1", EventKind::Land(name("27")))), clear);
        assert_eq!(events.len(), if clear { 2 } else { 1 });
    }
    let mut other_airspace = landing("AAL2", LandingState::Approach);
    other_airspace.pos = point(64_761_200, 0);
    other_airspace.airspace = Some(name("KLAX"));
    let mut not_landing = landing("AAL3", LandingState::Approach);
    not_landing.pos = point(64_761_200, 0);
    not_landing.segment = FlightSegment::Approach;
    not_landing.flight_plan.waypoint_index = 0;
    let mut engine = engine_with(vec![at_final_fix("AAL1"), other_airspace, not_landing]);
    let mut events = Vec::new();
    engine.update_auto_approach(&mut events);
    assert!(events.contains(&to("AAL1", EventKind::Land(name("27")))));
}

#[test]
fn an_established_landing_is_handed_to_the_tower() {
    let mut engine = engine_with(vec![
        landing("AAL1", LandingState::Approach),
        landing("AAL2", LandingState::Established),
        landing("AAL3", LandingState::Touchdown),
    ]);
    let mut events = Vec::new();
    engine.update_auto_approach(&mut events);
    assert_eq!(
        events,
        vec![
            to("AAL2", EventKind::NamedFrequency(Name(NAME_TOWER))),
            to("AAL3", EventKind::NamedFrequency(Name(NAME_TOWER))),
        ]
    );
}

// The ground controller.

#[test]
fn a_parked_departure_is_cleared_to_the_runway() {
    let mut engine = engine_with(vec![parked("AAL1", "A1", point(feet(3_500), feet(-1_000)))]);
    engine.compute_available_gates();
    let mut events = Vec::new();
    engine.update_auto_ground(&mut events);
    assert_eq!(
        events,
        vec![to(
            "AAL1",
            EventKind::Taxi(vec![
                destination("B", NodeKind::Taxiway, NodeBehavior::GoTo),
                destination("27", NodeKind::Runway, NodeBehavior::GoTo),
            ])
        )]
    );
}

#[test]
fn every_parked_departure_is_cleared_in_one_tick() {
    let mut engine = engine_with(vec![
        parked("AAL1", "A1", point(0, 0)),
        parked("AAL2", "A2", point(0, 0)),
    ]);
    let mut events = Vec::new();
    engine.update_auto_ground(&mut events);
    assert_eq!(events.len(), 2);
}

#[test]
fn a_departure_is_not_cleared_off_automated_ground_or_without_a_destination() {
    let mut engine = engine_with(vec![parked("AAL1", "A1", point(0, 0))]);
    engine.world.airports[0].status.automate_ground = false;
    let mut events = Vec::new();
    engine.update_auto_ground(&mut events);
    assert_eq!(events, vec![]);
    let mut lost = parked("AAL1", "A1", point(0, 0));
    lost.flight_plan.arriving = name("KJFK");
    let mut boarding = parked("AAL2", "A2", point(0, 0));
    boarding.segment = FlightSegment::Boarding;
    let mut engine = engine_with(vec![lost, boarding]);
    engine.update_auto_ground(&mut events);
    assert_eq!(events, vec![]);
}

fn departure_on_runway(id: &str) -> Aircraft {
    let mut a = on_runway(id);
    a.segment = FlightSegment::TaxiDep;
    a
}

#[test]
fn one_takeoff_at_a_time() {
    let mut engine = engine_with(vec![departure_on_runway("AAL1"), departure_on_runway("AAL2")]);
    let mut events = Vec::new();
    engine.update_auto_ground(&mut events);
    assert_eq!(
        events,
        vec![
            to("AAL1", EventKind::Takeoff(name("27"))),
            to("AAL1", EventKind::NamedFrequency(Name(NAME_DEPARTURE))),
        ]
    );
    engine.game.aircraft[0].state = AircraftState::Flying;
    engine.game.aircraft[0].segment = FlightSegment::Takeoff;
    let mut events = Vec::new();
    engine.update_auto_ground(&mut events);
    assert_eq!(events, vec![]);
    engine.game.aircraft[0].segment = FlightSegment::Departure;
    engine.update_auto_ground(&mut events);
    assert_eq!(
        events,
        vec![
            to("AAL2", EventKind::Takeoff(name("27"))),
            to("AAL2", EventKind::NamedFrequency(Name(NAME_DEPARTURE))),
        ]
    );
}

#[test]
fn a_takeoff_elsewhere_does_not_hold_a_departure() {
    let mut elsewhere = plane("AAL1");
    elsewhere.segment = FlightSegment::Takeoff;
    elsewhere.airspace = Some(name("KLAX"));
    let mut engine = engine_with(vec![elsewhere, departure_on_runway("AAL2")]);
    let mut events = Vec::new();
    engine.update_auto_ground(&mut events);
    assert_eq!(events.len(), 2);
    let mut moving = departure_on_runway("AAL3");
    if let AircraftState::Taxiing { waypoints, .. } = &mut moving.state {
        waypoints.push(taxi_node("B", NodeKind::Taxiway, NodeBehavior::GoTo, point(0, 0)));
    }
    let mut engine = engine_with(vec![moving]);
    let mut events = Vec::new();
    engine.update_auto_ground(&mut events);
    assert_eq!(events, vec![]);
}

fn arrival_on_runway(id: &str) -> Aircraft {
    let mut a = on_runway(id);
    a.segment = FlightSegment::TaxiArr;
    a.speed = knots(20);
    a
}

#[test]
fn an_arrival_is_sent_to_the_first_free_gate() {
    let mut engine = engine_with(vec![arrival_on_runway("AAL1"), arrival_on_runway("AAL2")]);
    engine.compute_available_gates();
    let mut events = Vec::new();
    engine.update_auto_ground(&mut events);
    let to_gate = |id: &str, gate: &str| {
        to(id, EventKind::Taxi(vec![destination(gate, NodeKind::Gate, NodeBehavior::Park)]))
    };
    assert_eq!(events, vec![to_gate("AAL1", "A1")]);
    engine.add_aircraft(parked("AAL3", "A1", point(0, 0)));
    engine.game.aircraft[2].segment = FlightSegment::Dormant;
    engine.compute_available_gates();
    let mut events = Vec::new();
    engine.update_auto_ground(&mut events);
    assert_eq!(events, vec![to_gate("AAL1", "A2")]);
}

#[test]
fn an_arrival_waits_while_it_is_fast_on_its_way_or_no_gate_is_free() {
    let mut fast = arrival_on_runway("AAL1");
    fast.speed = knots(20) + 1;
    let mut bound = arrival_on_runway("AAL2");
    if let AircraftState::Taxiing { waypoints, .. } = &mut bound.state {
        waypoints.push(taxi_node("A2", NodeKind::Gate, NodeBehavior::Park, point(0, 0)));
    }
    let mut engine = engine_with(vec![fast, bound]);
    engine.compute_available_gates();
    let mut events = Vec::new();
    engine.update_auto_ground(&mut events);
    assert_eq!(events, vec![]);
    let mut engine = engine_with(vec![arrival_on_runway("AAL1")]);
    engine.update_auto_ground(&mut events);
    assert_eq!(events, vec![]);
    engine.gates = vec![vec![vec![false, false]], vec![vec![true, true]]];
    engine.update_auto_ground(&mut events);
    assert_eq!(events, vec![]);
}

// What a tick does to an aircraft by itself.

#[test]
fn an_aircraft_moves_toward_its_targets_by_what_its_performance_allows() {
    let mut a = cruising("AAL1", point(0, 0), 0, feet(10_000));
    a.target = AircraftTargets { heading: degrees(90), altitude: feet(12_000), speed: knots(300) };
    a.update_from_targets(15);
    assert_eq!(a.heading, 200);
    assert_eq!(a.altitude, feet(10_000) + 2_222);
    assert_eq!(a.speed, knots(250) + 200);
    a.target = AircraftTargets { heading: degrees(350), altitude: feet(9_000), speed: knots(200) };
    a.update_from_targets(15);
    assert_eq!(a.heading, 0);
    assert_eq!(a.altitude, feet(10_000));
    assert_eq!(a.speed, knots(250) - 200);
    a.update_from_targets(1);
    assert_eq!(a.heading, degrees(357));
    assert_eq!(a.altitude, feet(10_000) - 33_333);
    assert_eq!(a.speed, knots(250) - 200 - knots(6));
}

#[test]
fn an_aircraft_reaches_its_targets_and_stays() {
    let mut a = cruising("AAL1", point(0, 0), 359_950, feet(10_000));
    a.target = AircraftTargets { heading: 100, altitude: feet(10_000) + 5, speed: knots(250) - 7 };
    a.update_from_targets(15);
    assert_eq!((a.heading, a.altitude, a.speed), (100, feet(10_000) + 5, knots(250) - 7));
    a.update_from_targets(15);
    assert_eq!((a.heading, a.altitude, a.speed), (100, feet(10_000) + 5, knots(250) - 7));
}

#[test]
fn an_aircraft_moves_on_along_its_heading() {
    let mut a = cruising("AAL1", point(0, 0), degrees(90), feet(10_000));
    a.update_position(15);
    assert_eq!(a.pos, point(28_130, 0));
    a.heading = degrees(180);
    a.speed = knots(20);
    a.update_position(15);
    assert_eq!(a.pos, point(28_130, -2_250));
    a.speed = 0;
    a.update_position(15);
    assert_eq!(a.pos, point(28_130, -2_250));
}

#[test]
fn the_airspace_is_that_of_the_first_airport_in_range() {
    let mut a = plane("AAL1");
    a.pos = point(30 * NM, 0);
    a.update_airspace(&world());
    assert_eq!(a.airspace, Some(name("KSFO")));
    a.pos = point(30 * NM + 1, 0);
    a.update_airspace(&world());
    assert_eq!(a.airspace, None);
    a.pos = point(190 * NM, 5 * NM);
    a.update_airspace(&world());
    assert_eq!(a.airspace, Some(name("KLAX")));
    let mut overlapping = world();
    overlapping.airports[0].radius = 500 * NM;
    a.update_airspace(&overlapping);
    assert_eq!(a.airspace, Some(name("KSFO")));
}

#[test]
fn a_taxiing_aircraft_steers_for_the_last_of_its_waypoints() {
    let mut a = taxiing(
        "AAL1",
        taxi_node("B", NodeKind::Taxiway, NodeBehavior::GoTo, point(0, 0)),
        vec![
            taxi_node("27", NodeKind::Runway, NodeBehavior::HoldShort, point(9, 9)),
            taxi_node("AP", NodeKind::Apron, NodeBehavior::GoTo, point(300_000, 400_000)),
        ],
    );
    let before = a.clone();
    let mut events = Vec::new();
    a.update_taxiing(&mut events);
    assert_eq!(events, vec![]);
    assert_eq!(a.target.heading, 36_912);
    assert_eq!(a.state, before.state);
}

fn arriving_at(behavior: NodeBehavior, kind: NodeKind) -> (Aircraft, Vec<Event>) {
    let mut a = taxiing(
        "AAL1",
        taxi_node("B", NodeKind::Taxiway, NodeBehavior::GoTo, point(0, 0)),
        vec![
            taxi_node("Z", NodeKind::Taxiway, NodeBehavior::GoTo, point(9, 9)),
            taxi_node("N", kind, behavior, point(feet(30), feet(40))),
        ],
    );
    a.speed = knots(10);
    a.target.speed = knots(20);
    let mut events = Vec::new();
    a.update_taxiing(&mut events);
    (a, events)
}

fn taxiing_at(kind: NodeKind, behavior: NodeBehavior, state: TaxiingState) -> AircraftState {
    AircraftState::Taxiing {
        current: taxi_node("N", kind, behavior, point(feet(30), feet(40))),
        waypoints: vec![taxi_node("Z", NodeKind::Taxiway, NodeBehavior::GoTo, point(9, 9))],
        state,
    }
}

#[test]
fn a_waypoint_within_fifty_feet_is_reached() {
    let (a, events) = arriving_at(NodeBehavior::GoTo, NodeKind::Taxiway);
    assert_eq!(events, vec![]);
    assert_eq!(a.state, taxiing_at(NodeKind::Taxiway, NodeBehavior::GoTo, TaxiingState::Armed));
    assert_eq!((a.speed, a.target.speed), (knots(10), knots(20)));
    let mut far = taxiing(
        "AAL1",
        taxi_node("B", NodeKind::Taxiway, NodeBehavior::GoTo, point(0, 0)),
        vec![taxi_node("N", NodeKind::Taxiway, NodeBehavior::GoTo, point(feet(30), feet(40) + 1))],
    );
    let before = far.state.clone();
    far.update_taxiing(&mut Vec::new());
    assert_eq!(far.state, before);
}

#[test]
fn an_aircraft_parks_where_it_is_to_park() {
    let (a, events) = arriving_at(NodeBehavior::Park, NodeKind::Gate);
    assert_eq!(events, vec![]);
    assert_eq!(
        a.state,
        AircraftState::Parked {
            at: taxi_node("N", NodeKind::Gate, NodeBehavior::Park, point(feet(30), feet(40)))
        }
    );
    assert_eq!((a.speed, a.target.speed), (0, 0));
}

#[test]
fn an_aircraft_takes_off_holds_short_or_lines_up_as_its_route_says() {
    let (a, events) = arriving_at(NodeBehavior::Takeoff, NodeKind::Runway);
    assert_eq!(events, vec![to("AAL1", EventKind::Takeoff(name("N")))]);
    assert_eq!(a.state, taxiing_at(NodeKind::Runway, NodeBehavior::Takeoff, TaxiingState::Armed));
    let (a, events) = arriving_at(NodeBehavior::Takeoff, NodeKind::Taxiway);
    assert_eq!(events, vec![]);
    assert_eq!(a.state, taxiing_at(NodeKind::Taxiway, NodeBehavior::Takeoff, TaxiingState::Armed));
    let (a, events) = arriving_at(NodeBehavior::HoldShort, NodeKind::Runway);
    assert_eq!(events, vec![]);
    assert_eq!(a.state, taxiing_at(NodeKind::Runway, NodeBehavior::HoldShort, TaxiingState::Holding));
    assert_eq!((a.speed, a.target.speed), (0, 0));
    let (a, events) = arriving_at(NodeBehavior::LineUp, NodeKind::Runway);
    assert_eq!(events, vec![]);
    assert_eq!(a.state, taxiing_at(NodeKind::Runway, NodeBehavior::LineUp, TaxiingState::Armed));
    assert_eq!((a.speed, a.target.speed), (0, 0));
}

#[test]
fn a_held_or_stopped_aircraft_stands() {
    for (state, stands) in [
        (TaxiingState::Holding, true),
        (TaxiingState::Stopped, true),
        (TaxiingState::Armed, false),
        (TaxiingState::Override, false),
    ] {
        let mut a = with_sub_state(state);
        a.update_taxiing(&mut Vec::new());
        assert_eq!(a.speed == 0, stands);
        assert_eq!(a.target.speed, knots(5));
    }
    let mut flying = cruising("AAL1", point(0, 0), 0, feet(9_000));
    flying.update_taxiing(&mut Vec::new());
    assert_eq!(flying, cruising("AAL1", point(0, 0), 0, feet(9_000)));
}

#[test]
fn a_landing_aircraft_is_established_within_five_degrees_of_the_centerline() {
    let start = world().airports[0].runways[0].start;
    let mut a = landing("AAL1", LandingState::Approach);
    a.pos = point(start.x + 3 * NM, 200_000);
    let mut events = Vec::new();
    a.update_landing(&mut events);
    assert_eq!(events, vec![]);
    assert!(matches!(a.state, AircraftState::Landing { state: LandingState::Established, .. }));
    assert_eq!(a.target.heading, degrees(270));
    assert_eq!(a.target.altitude, 955_223);
    let mut off = landing("AAL2", LandingState::Approach);
    off.pos = point(start.x + 3 * NM, NM);
    let before = off.clone();
    off.update_landing(&mut events);
    assert_eq!(off, before);
}

#[test]
fn a_landing_aircraft_touches_down_low_and_past_the_threshold() {
    let start = world().airports[0].runways[0].start;
    let mut a = landing("AAL1", LandingState::Established);
    a.pos = point(start.x - feet(100), 0);
    a.altitude = feet(50);
    let mut events = Vec::new();
    a.update_landing(&mut events);
    assert_eq!(events, vec![to("AAL1", EventKind::Touchdown)]);
    assert!(matches!(a.state, AircraftState::Landing { state: LandingState::Touchdown, .. }));
    a.update_landing(&mut events);
    assert_eq!(events.len(), 1);
    let mut high = landing("AAL2", LandingState::Established);
    high.pos = point(start.x - feet(100), 0);
    high.altitude = feet(50) + 1;
    high.update_landing(&mut events);
    assert_eq!(events.len(), 1);
    let mut short = landing("AAL3", LandingState::Established);
    short.pos = point(start.x + feet(100), 0);
    short.altitude = feet(10);
    short.update_landing(&mut events);
    assert_eq!(events.len(), 1);
    assert!(matches!(short.state, AircraftState::Landing { state: LandingState::Established, .. }));
}

#[test]
fn a_flying_aircraft_steers_for_its_waypoint_off_by_its_side_step() {
    let mut a = cruising("AAL1", point(0, 0), 0, feet(20_000));
    a.flight_plan.course_offset = degrees(20);
    a.flight_plan.waypoints = vec![
        new_vor(name("ONE"), point(10 * NM, 10 * NM)).with_limits(VORLimits {
            altitude: VORLimit::AtOrBelow(feet(15_000)),
            speed: VORLimit::AtOrAbove(knots(280)),
        }),
    ];
    let mut events = Vec::new();
    a.update_flying(&mut events);
    assert_eq!(events, vec![]);
    assert_eq!(
        a.target,
        AircraftTargets { heading: degrees(65), altitude: feet(15_000), speed: knots(280) }
    );
    assert_eq!(a.flight_plan.waypoint_index, 0);
}

#[test]
fn the_limits_of_a_waypoint_bound_the_targets() {
    let limited = |limit: VORLimit, target: i64| {
        let mut a = cruising("AAL1", point(0, 0), 0, target);
        a.flight_plan.waypoints = vec![new_vor(name("ONE"), point(10 * NM, 0))
            .with_limits(VORLimits::new().with_altitude(limit))];
        a.update_flying(&mut Vec::new());
        a.target.altitude
    };
    assert_eq!(limited(VORLimit::Unlimited, 7), 7);
    assert_eq!(limited(VORLimit::At(9), 7), 9);
    assert_eq!(limited(VORLimit::At(-9), 7), 0);
    assert_eq!(limited(VORLimit::AtOrAbove(9), 7), 9);
    assert_eq!(limited(VORLimit::AtOrAbove(5), 7), 7);
    assert_eq!(limited(VORLimit::AtOrBelow(9), 7), 7);
    assert_eq!(limited(VORLimit::AtOrBelow(5), 7), 5);
}

#[test]
fn a_waypoint_within_a_mile_is_crossed_and_what_it_asks_is_sent() {
    let mut a = cruising("AAL1", point(0, 0), 0, feet(20_000));
    a.flight_plan.waypoints = vec![
        new_vor(name("ONE"), point(0, NM)).with_actions(VORActions {
            speed_at_or_above: Some(knots(300)),
            altitude_at_or_above: None,
            frequency: Some(127_000),
        }),
        new_vor(name("TWO"), point(0, 9 * NM)),
    ];
    let mut events = Vec::new();
    a.update_flying(&mut events);
    assert_eq!(
        events,
        vec![
            to("AAL1", EventKind::SpeedAtOrAbove(knots(300))),
            to("AAL1", EventKind::Frequency(127_000)),
        ]
    );
    assert_eq!(a.flight_plan.waypoint_index, 1);
    a.update_flying(&mut events);
    assert_eq!(a.flight_plan.waypoint_index, 1);
    assert_eq!(events.len(), 2);
}

#[test]
fn an_aircraft_that_does_not_follow_its_plan_is_left_alone() {
    let mut a = cruising("AAL1", point(0, 0), 0, feet(20_000));
    a.flight_plan.waypoints = vec![new_vor(name("ONE"), point(0, NM))];
    a.flight_plan.follow = false;
    let before = a.clone();
    a.update_flying(&mut Vec::new());
    assert_eq!(a, before);
    a.flight_plan.follow = true;
    a.flight_plan.waypoint_index = 1;
    let before = a.clone();
    a.update_flying(&mut Vec::new());
    assert_eq!(a, before);
}

fn segment_of(mut a: Aircraft) -> FlightSegment {
    a.update_segment(&mut Vec::new(), 0);
    a.segment
}

#[test]
fn the_segment_follows_the_state() {
    for (before, after) in [
        (FlightSegment::Dormant, FlightSegment::Dormant),
        (FlightSegment::Boarding, FlightSegment::Boarding),
        (FlightSegment::Parked, FlightSegment::Parked),
        (FlightSegment::TaxiArr, FlightSegment::Parked),
        (FlightSegment::TaxiDep, FlightSegment::Parked),
        (FlightSegment::Landing, FlightSegment::Parked),
        (FlightSegment::Cruise, FlightSegment::Parked),
    ] {
        let mut a = parked("AAL1", "A1", point(0, 0));
        a.segment = before;
        assert_eq!(segment_of(a), after);
    }
    for (before, after) in [
        (FlightSegment::Parked, FlightSegment::TaxiDep),
        (FlightSegment::TaxiDep, FlightSegment::TaxiDep),
        (FlightSegment::Landing, FlightSegment::TaxiArr),
        (FlightSegment::TaxiArr, FlightSegment::TaxiArr),
        (FlightSegment::Approach, FlightSegment::TaxiArr),
    ] {
        let mut a = on_runway("AAL1");
        a.segment = before;
        assert_eq!(segment_of(a), after);
    }
    let mut a = landing("AAL1", LandingState::Approach);
    a.segment = FlightSegment::Approach;
    assert_eq!(segment_of(a), FlightSegment::Landing);
}

#[test]
fn the_segment_of_a_flight_follows_its_progress() {
    let mut a = cruising("AAL1", point(0, 0), 0, feet(500));
    a.flight_plan.waypoints = three_waypoints();
    a.airspace = Some(name("KSFO"));
    a.segment = FlightSegment::TaxiDep;
    assert_eq!(segment_of(a.clone()), FlightSegment::Takeoff);
    a.segment = FlightSegment::Takeoff;
    assert_eq!(segment_of(a.clone()), FlightSegment::Takeoff);
    a.altitude = feet(1_000);
    assert_eq!(segment_of(a.clone()), FlightSegment::Departure);
    a.segment = FlightSegment::Departure;
    assert_eq!(segment_of(a.clone()), FlightSegment::Departure);
    a.airspace = None;
    assert_eq!(segment_of(a.clone()), FlightSegment::Climb);
    a.altitude = feet(37_000);
    assert_eq!(segment_of(a.clone()), FlightSegment::Cruise);
    a.segment = FlightSegment::Cruise;
    a.flight_plan.waypoint_index = 2;
    assert_eq!(segment_of(a.clone()), FlightSegment::Arrival);
    a.flight_plan.waypoint_index = 0;
    a.airspace = Some(name("KLAX"));
    assert_eq!(segment_of(a.clone()), FlightSegment::Arrival);
    a.segment = FlightSegment::Arrival;
    assert_eq!(segment_of(a.clone()), FlightSegment::Approach);
    a.segment = FlightSegment::Approach;
    assert_eq!(segment_of(a.clone()), FlightSegment::Approach);
}

#[test]
fn a_change_of_segment_is_sent_out() {
    let mut a = on_runway("AAL1");
    a.state = AircraftState::Flying;
    a.segment = FlightSegment::TaxiDep;
    let mut events = Vec::new();
    a.update_segment(&mut events, 41);
    assert_eq!(
        events,
        vec![to("AAL1", EventKind::Segment(FlightSegment::TaxiDep, FlightSegment::Takeoff))]
    );
    assert_eq!(a.segment, FlightSegment::Takeoff);
    assert_eq!(a.flight_time, Some(41));
    a.update_segment(&mut events, 42);
    assert_eq!(events.len(), 1);
    assert_eq!(a.flight_time, Some(41));
}

// The pathfinder.

fn finder() -> Pathfinder {
    world().airports.remove(0).pathfinder
}

#[test]
fn a_route_leads_over_the_points_where_the_nodes_meet() {
    let found = finder()
        .path_to(
            destination("A1", NodeKind::Gate, NodeBehavior::GoTo),
            destination("27", NodeKind::Runway, NodeBehavior::LineUp),
            point(feet(3_500), feet(-1_000)),
            degrees(10),
        )
        .unwrap();
    assert_eq!(
        found.path,
        vec![
            taxi_node("AP", NodeKind::Apron, NodeBehavior::GoTo, point(feet(3_500), feet(-900))),
            taxi_node("B", NodeKind::Taxiway, NodeBehavior::GoTo, point(feet(3_900), feet(-900))),
            taxi_node("27", NodeKind::Runway, NodeBehavior::LineUp, point(feet(3_900), 0)),
        ]
    );
    assert_eq!(found.final_pos, point(feet(3_900), 0));
    assert_eq!(found.final_heading, 0);
}

#[test]
fn a_route_of_one_step_ends_on_the_bearing_from_where_the_aircraft_stands() {
    let found = finder()
        .path_to(
            destination("27", NodeKind::Runway, NodeBehavior::GoTo),
            destination("B", NodeKind::Taxiway, NodeBehavior::HoldShort),
            point(feet(4_000), 0),
            degrees(10),
        )
        .unwrap();
    assert_eq!(
        found.path,
        vec![taxi_node("B", NodeKind::Taxiway, NodeBehavior::HoldShort, point(feet(3_900), 0))]
    );
    assert_eq!(found.final_heading, degrees(270));
    let found = finder()
        .path_to(
            destination("27", NodeKind::Runway, NodeBehavior::GoTo),
            destination("B", NodeKind::Taxiway, NodeBehavior::HoldShort),
            point(feet(3_900), 0),
            degrees(10),
        )
        .unwrap();
    assert_eq!(found.final_heading, degrees(10));
}

#[test]
fn there_is_no_route_to_or_from_an_unknown_node_or_to_where_one_stands() {
    let runway = destination("27", NodeKind::Runway, NodeBehavior::GoTo);
    let unknown = destination("Z", NodeKind::Taxiway, NodeBehavior::GoTo);
    let wrong_kind = destination("B", NodeKind::Apron, NodeBehavior::GoTo);
    assert_eq!(finder().path_to(runway, unknown, point(0, 0), 0), None);
    assert_eq!(finder().path_to(unknown, runway, point(0, 0), 0), None);
    assert_eq!(finder().path_to(runway, wrong_kind, point(0, 0), 0), None);
    assert_eq!(finder().path_to(runway, runway, point(0, 0), 0), None);
}

#[test]
fn there_is_no_route_between_parts_of_a_graph_that_do_not_meet() {
    let mut graph = petgraph::graph::UnGraph::<Node<Line>, Point>::new_undirected();
    let a = graph.add_node(graph_node("A", NodeKind::Taxiway, point(0, 0), point(1, 1)));
    let b = graph.add_node(graph_node("B", NodeKind::Taxiway, point(0, 0), point(1, 1)));
    let c = graph.add_node(graph_node("C", NodeKind::Taxiway, point(0, 0), point(1, 1)));
    let d = graph.add_node(graph_node("D", NodeKind::Taxiway, point(0, 0), point(1, 1)));
    graph.add_edge(a, b, point(1, 1));
    graph.add_edge(c, d, point(2, 2));
    graph.add_edge(a, a, point(3, 3));
    let finder = Pathfinder { graph };
    let at = |text: &str| destination(text, NodeKind::Taxiway, NodeBehavior::GoTo);
    assert_eq!(finder.path_to(at("A"), at("C"), point(0, 0), 0), None);
    assert_eq!(finder.path_to(at("D"), at("B"), point(0, 0), 0), None);
    assert!(finder.path_to(at("C"), at("D"), point(0, 0), 0).is_some());
    assert!(finder.path_to(at("B"), at("A"), point(0, 0), 0).is_some());
    assert_eq!(finder.node_count(), 4);
    assert_eq!(finder.edge_count(), 3);
    assert_eq!(finder.node(2).name, name("C"));
    assert_eq!(finder.edge(1), (2, 3, point(2, 2)));
    assert_eq!(finder.find_node(&at("D")), Some(3));
    assert_eq!(finder.find_node(&at("E")), None);
}

#[test]
fn a_route_takes_the_fewest_steps() {
    let mut graph = petgraph::graph::UnGraph::<Node<Line>, Point>::new_undirected();
    let nodes: Vec<_> = ["A", "B", "C", "D", "E"]
        .iter()
        .map(|text| graph.add_node(graph_node(text, NodeKind::Taxiway, point(0, 0), point(1, 1))))
        .collect();
    graph.add_edge(nodes[0], nodes[1], point(1, 0));
    graph.add_edge(nodes[1], nodes[2], point(2, 0));
    graph.add_edge(nodes[2], nodes[3], point(3, 0));
    graph.add_edge(nodes[3], nodes[4], point(4, 0));
    graph.add_edge(nodes[0], nodes[3], point(5, 0));
    let finder = Pathfinder { graph };
    let at = |text: &str| destination(text, NodeKind::Taxiway, NodeBehavior::GoTo);
    let found = finder.path_to(at("A"), at("E"), point(0, 0), 0).unwrap();
    assert_eq!(
        found.path,
        vec![
            taxi_node("D", NodeKind::Taxiway, NodeBehavior::GoTo, point(5, 0)),
            taxi_node("E", NodeKind::Taxiway, NodeBehavior::GoTo, point(4, 0)),
        ]
    );
    assert_eq!(found.final_heading, degrees(270));
}

#[test]
fn a_copy_of_a_graph_finds_the_same_routes() {
    let original = finder();
    let copy = original.clone();
    assert_eq!(copy.node_count(), 5);
    assert_eq!(copy.edge_count(), 4);
    let from = destination("A2", NodeKind::Gate, NodeBehavior::GoTo);
    let to = destination("27", NodeKind::Runway, NodeBehavior::GoTo);
    assert!(copy.path_to(from, to, point(0, 0), 0).is_some());
    assert_eq!(copy.path_to(from, to, point(0, 0), 0), original.path_to(from, to, point(0, 0), 0));
    assert!(copy.is_wf());
}

#[test]
fn a_sound_engine_says_so() {
    let mut engine = busy_engine();
    assert!(engine.is_wf());
    engine.game.aircraft[0].heading = 360_000;
    assert!(!engine.is_wf());
    let mut engine = busy_engine();
    engine.game.aircraft[3].flight_plan.waypoint_index = 2;
    assert!(!engine.is_wf());
    let mut engine = busy_engine();
    engine.world.airports[1].runways[0].heading = -1;
    assert!(!engine.is_wf());
    let mut engine = busy_engine();
    engine.world.airports[0].pathfinder.graph.add_edge(
        petgraph::graph::NodeIndex::new(0),
        petgraph::graph::NodeIndex::new(1),
        point(i64::MAX, 0),
    );
    assert!(!engine.is_wf());
    let mut engine = busy_engine();
    engine.tick_rate_tps = 0;
    assert!(!engine.is_wf());
    let mut engine = busy_engine();
    engine.game.aircraft[1].pos = point(0, i64::MIN);
    assert!(!engine.is_wf());
    let mut engine = busy_engine();
    engine.game.aircraft[2].flight_plan.course_offset = -degrees(20) - 1;
    assert!(!engine.is_wf());
}

// The engine.

#[test]
fn a_new_engine_is_empty_and_checks_collisions() {
    let engine = Engine::default();
    assert!(engine.airports.is_empty());
    assert_eq!(engine.config, EngineConfig::Full);
    assert_eq!(EngineConfig::default(), EngineConfig::Full);
    assert!(engine.world.airports.is_empty());
    assert!(engine.world.waypoints.is_empty());
    assert_eq!(
        engine.world.levels,
        CruiseLevels { arrival: feet(10_000), east: feet(37_000), west: feet(38_000) }
    );
    assert!(engine.game.aircraft.is_empty());
    assert!(engine.events.is_empty());
    assert_eq!(engine.tick_counter, 0);
    assert_eq!(engine.tick_rate_tps, 15);
    assert_eq!(DEFAULT_TICK_RATE_TPS, 15);
    assert!(!engine.paused);
    assert_eq!(AirportStatus::default(), AirportStatus {
        divert_arrivals: false,
        automate_air: false,
        automate_ground: false,
    });
}

#[test]
fn collision_checks_and_logs_are_for_the_full_engine() {
    assert!(EngineConfig::Full.run_collisions());
    assert!(EngineConfig::Full.show_logs());
    assert!(!EngineConfig::Minimal.run_collisions());
    assert!(!EngineConfig::Minimal.show_logs());
}

#[test]
fn airports_are_found_by_their_name() {
    let mut engine = engine_with(vec![]);
    assert_eq!(engine.airport(name("KLAX")).map(|a| a.center), Some(point(200 * NM, 0)));
    assert!(engine.airport(name("KJFK")).is_none());
    assert!(engine.default_airport().is_none());
    let mut airports = world().airports;
    airports.push(airport("default", point(5, 5)));
    airports.push(airport("KLAX", point(6, 6)));
    engine.load_assets(airports);
    assert_eq!(engine.default_airport().map(|a| a.center), Some(point(5, 5)));
    assert_eq!(engine.airport(name("KLAX")).map(|a| a.center), Some(point(200 * NM, 0)));
    assert_eq!(engine.world.airport(name("KSFO")).map(|a| a.id), Some(name("KSFO")));
    assert!(engine.world.airport(name("default")).is_none());
    assert_eq!(engine.world.airport_status(name("KSFO")), automated());
    assert_eq!(engine.world.airport_status(name("KJFK")), AirportStatus::default());
    assert_eq!(engine.world.find_airport(name("KLAX")), Some(1));
    assert_eq!(engine.world.airport_of(None).map(|a| a.id), None);
}

#[test]
fn an_aircraft_whose_name_is_taken_gets_another() {
    let mut engine = engine_with(vec![plane("AAL1"), plane("AAL2")]);
    engine.add_aircraft(plane("AAL1"));
    engine.add_aircraft(plane("AAL1"));
    let ids: Vec<Name> = engine.game.aircraft.iter().map(|a| a.id).collect();
    assert_eq!(ids.len(), 4);
    assert_eq!(ids[0], name("AAL1"));
    assert_eq!(ids[1], name("AAL2"));
    for i in 0..4 {
        for j in 0..i {
            assert_ne!(ids[i], ids[j]);
        }
    }
    for id in &ids[2..] {
        let text = id.0.to_be_bytes();
        let text = &text[9..];
        assert!(text[..3].iter().all(|c| c.is_ascii_uppercase()));
        assert!(text[3..].iter().all(|c| c.is_ascii_digit()));
    }
    assert_eq!(
        engine.game.aircraft[3],
        Aircraft { id: ids[3], ..plane("AAL1") }
    );
}

#[test]
fn the_first_free_callsign_is_the_first_in_their_order() {
    let mut engine = engine_with(vec![]);
    assert_eq!(atc_engine::engine::free_callsign(&engine.game), Some(name("AAA0000")));
    engine.add_aircraft(plane("AAA0001"));
    engine.add_aircraft(plane("AAA0000"));
    engine.add_aircraft(plane("AAA0003"));
    assert_eq!(atc_engine::engine::free_callsign(&engine.game), Some(name("AAA0002")));
    for place in 0..30 {
        let text = format!("AAA00{:02}", place);
        engine.add_aircraft(plane(&text));
    }
    assert_eq!(atc_engine::engine::free_callsign(&engine.game), Some(name("AAA0030")));
}

#[test]
fn the_least_free_name_is_the_least_code_that_no_aircraft_has() {
    let mut engine = engine_with(vec![]);
    assert_eq!(atc_engine::engine::unused_name(&engine.game), Name(0));
    for code in [1, 0, 3] {
        let mut a = plane("X");
        a.id = Name(code);
        engine.add_aircraft(a);
    }
    assert_eq!(atc_engine::engine::unused_name(&engine.game), Name(2));
}

#[test]
fn pause_toggles_and_is_echoed() {
    let mut engine = engine_with(vec![]);
    assert_eq!(engine.handle_ui_command(UICommand::Pause), UIEvent::Pause);
    assert!(engine.paused);
    assert_eq!(engine.handle_ui_command(UICommand::Pause), UIEvent::Pause);
    assert!(!engine.paused);
}

fn busy_engine() -> Engine {
    let mut engine = engine_with(vec![
        cruising("AAL1", point(100 * NM, 0), degrees(90), feet(30_000)),
        parked("AAL2", "A1", point(feet(3_500), feet(-1_000))),
        landing("AAL3", LandingState::Established),
        inbound("AAL4", 8),
    ]);
    engine.events = vec![
        to("AAL1", EventKind::Heading(degrees(-30))),
        Event::UiEvent(UIEvent::Pause),
        to("NONE", EventKind::Delete),
        to("AAL1", EventKind::Altitude(feet(31_000))),
    ];
    engine
}

fn same_state(one: &Engine, other: &Engine) -> bool {
    one.game.aircraft == other.game.aircraft
        && one.events == other.events
        && one.gates == other.gates
        && one.tick_counter == other.tick_counter
        && one.tick_rate_tps == other.tick_rate_tps
        && one.paused == other.paused
        && one.config == other.config
        && one.rng == other.rng
}

#[test]
fn a_paused_engine_does_not_tick() {
    let mut engine = busy_engine();
    engine.handle_ui_command(UICommand::Pause);
    let before = engine.clone();
    assert_eq!(engine.tick(), Ok(vec![]));
    assert!(same_state(&engine, &before));
    assert_eq!(engine.tick(), Ok(vec![]));
    assert!(same_state(&engine, &before));
    engine.handle_ui_command(UICommand::Pause);
    assert!(engine.tick().is_ok());
    assert_eq!(engine.tick_counter, 1);
}

#[test]
fn an_engine_without_airports_is_not_ready() {
    let mut engine = busy_engine();
    engine.load_assets(vec![]);
    let before = engine.clone();
    assert_eq!(engine.tick(), Err(EngineError::NotReady));
    assert!(same_state(&engine, &before));
}

#[test]
fn a_tick_applies_the_inbound_events_in_order_and_returns_what_is_sent_out() {
    let mut engine = busy_engine();
    engine.config = EngineConfig::Minimal;
    let sent = engine.tick().unwrap();
    assert_eq!(sent, engine.events);
    assert_eq!(engine.tick_counter, 1);
    let first = &engine.game.aircraft[0];
    assert_eq!(first.target.heading, degrees(330));
    assert_eq!(first.target.altitude, feet(31_000));
    assert!(!first.flight_plan.follow);
    assert_eq!(first.heading, degrees(90) - 200);
    assert_eq!(first.altitude, feet(30_000) + 2_222);
    assert_eq!(first.pos, point(100 * NM + 28_129, 99));
    assert_eq!(first.airspace, None);
    assert_eq!(
        sent,
        vec![
            to("AAL1", EventKind::Segment(FlightSegment::Cruise, FlightSegment::Arrival)),
            to("AAL4", EventKind::Speed(knots(250))),
            to("AAL3", EventKind::NamedFrequency(Name(NAME_TOWER))),
            to(
                "AAL2",
                EventKind::Taxi(vec![
                    destination("B", NodeKind::Taxiway, NodeBehavior::GoTo),
                    destination("27", NodeKind::Runway, NodeBehavior::GoTo),
                ])
            ),
        ]
    );
}

#[test]
fn what_a_tick_sends_out_is_inbound_at_the_next() {
    let mut engine = busy_engine();
    engine.tick().unwrap();
    assert!(matches!(engine.game.aircraft[1].state, AircraftState::Parked { .. }));
    engine.tick().unwrap();
    assert!(matches!(engine.game.aircraft[1].state, AircraftState::Taxiing { .. }));
    assert_eq!(engine.game.aircraft[1].segment, FlightSegment::TaxiDep);
    assert_eq!(engine.game.aircraft[3].target.speed, knots(250));
    assert_eq!(engine.game.aircraft[2].frequency, 118_700);
}

fn holds_after_tick(engine: &Engine) {
    assert!(heading_in_range(engine));
    for a in &engine.game.aircraft {
        assert!(a.flight_plan.course_offset.abs() <= a.minima.max_deviation_angle);
        assert!(a.flight_plan.waypoint_index <= a.flight_plan.waypoints.len());
        if matches!(a.state, AircraftState::Parked { .. }) {
            assert!(matches!(
                a.segment,
                FlightSegment::Dormant
                    | FlightSegment::Boarding
                    | FlightSegment::Parked
                    | FlightSegment::TaxiArr
            ));
        }
    }
    let mut again = engine.clone();
    again.compute_available_gates();
    assert_eq!(again.gates, engine.gates);
}

#[test]
fn the_invariants_hold_after_every_tick() {
    let mut engine = busy_engine();
    engine.game.aircraft[1].segment = FlightSegment::Landing;
    engine.events.push(to("AAL4", EventKind::Heading(i64::MIN)));
    engine.events.push(to("AAL3", EventKind::Segment(FlightSegment::Landing, FlightSegment::TaxiDep)));
    for _ in 0..600 {
        engine.tick().unwrap();
        holds_after_tick(&engine);
    }
    assert_eq!(engine.tick_counter, 600);
}

#[test]
fn a_landing_ends_at_a_gate() {
    let start = world().airports[0].runways[0].start;
    let mut lands = landing("AAL1", LandingState::Established);
    lands.pos = point(start.x + feet(2_000), 0);
    lands.altitude = feet(100);
    lands.speed = knots(130);
    lands.target.speed = knots(130);
    lands.flight_plan.departing = name("KLAX");
    lands.flight_plan.arriving = name("KSFO");
    lands.performance.turn_rate = degrees(30);
    let mut engine = engine_with(vec![lands]);
    engine.config = EngineConfig::Minimal;
    let mut touched_down = None;
    let mut parked_at = None;
    for tick in 0..20_000 {
        let sent = engine.tick().unwrap();
        holds_after_tick(&engine);
        if sent.contains(&to("AAL1", EventKind::Touchdown)) {
            touched_down = Some(tick);
        }
        if touched_down == Some(tick - 1) {
            assert!(matches!(
                engine.game.aircraft[0].state,
                AircraftState::Taxiing { state: TaxiingState::Override, .. }
            ));
        }
        if let AircraftState::Parked { at } = &engine.game.aircraft[0].state {
            parked_at = Some(*at);
            break;
        }
    }
    assert!(touched_down.is_some());
    assert_eq!(
        parked_at,
        Some(taxi_node("A1", NodeKind::Gate, NodeBehavior::Park, point(feet(3_500), feet(-900))))
    );
    assert_eq!(engine.gates[0], vec![vec![false, true]]);
}

#[test]
fn with_collision_checks_a_touchdown_is_armed_at_the_end_of_its_tick() {
    let mut engine = engine_with(vec![landing("AAL1", LandingState::Established)]);
    engine.events = vec![to("AAL1", EventKind::Touchdown)];
    engine.tick().unwrap();
    assert_eq!(sub_state(&engine.game.aircraft[0]), TaxiingState::Armed);
    let mut engine = engine_with(vec![landing("AAL1", LandingState::Established)]);
    engine.config = EngineConfig::Minimal;
    engine.events = vec![to("AAL1", EventKind::Touchdown)];
    engine.tick().unwrap();
    assert_eq!(sub_state(&engine.game.aircraft[0]), TaxiingState::Override);
}

#[test]
fn a_tick_sends_out_what_the_ground_conflict_pass_tells_the_aircraft() {
    let fleet = || {
        vec![
            rolling("AAL1", point(0, 0), degrees(90), TaxiingState::Armed),
            rolling("AAL2", point(feet(100), 0), degrees(90), TaxiingState::Armed),
            rolling("AAL3", point(feet(5_000), feet(5_000)), degrees(90), TaxiingState::Stopped),
        ]
    };
    let mut engine = engine_with(fleet());
    let sent = engine.tick().unwrap();
    assert_eq!(
        sent,
        vec![
            to("AAL1", EventKind::TaxiHold { and_state: false }),
            to("AAL3", EventKind::TaxiContinue),
        ]
    );
    assert_eq!(sent, engine.events);
    assert_eq!(sub_state(&engine.game.aircraft[0]), TaxiingState::Stopped);
    assert_eq!(sub_state(&engine.game.aircraft[1]), TaxiingState::Armed);
    assert_eq!(sub_state(&engine.game.aircraft[2]), TaxiingState::Armed);
    engine.tick().unwrap();
    assert_eq!((engine.game.aircraft[0].speed, engine.game.aircraft[0].target.speed), (0, 0));
    assert_eq!(engine.game.aircraft[2].target.speed, knots(20));
    let mut engine = engine_with(fleet());
    engine.config = EngineConfig::Minimal;
    assert_eq!(engine.tick().unwrap(), vec![]);
    assert_eq!(sub_state(&engine.game.aircraft[0]), TaxiingState::Armed);
    assert_eq!(sub_state(&engine.game.aircraft[2]), TaxiingState::Stopped);
}

#[test]
fn after_a_touchdown_with_traffic_ahead_the_stops_stay_overridden() {
    let start = world().airports[0].runways[0].start;
    let mut lands = landing("AAL1", LandingState::Established);
    lands.pos = point(start.x - feet(500), 0);
    lands.speed = knots(15);
    lands.target.speed = knots(15);
    lands.altitude = 0;
    lands.target.altitude = 0;
    let ahead = rolling("AAL2", point(start.x - feet(600), 0), degrees(270), TaxiingState::Holding);
    let mut engine = engine_with(vec![lands, ahead]);
    engine.events = vec![
        to("AAL1", EventKind::Speed(knots(15))),
        to("AAL1", EventKind::Touchdown),
        to("AAL2", EventKind::Ident),
    ];
    engine.tick().unwrap();
    assert!(matches!(
        &engine.game.aircraft[0].state,
        AircraftState::Taxiing { state: TaxiingState::Override, current, .. }
            if current.name == name("27") && current.kind == NodeKind::Runway
    ));
}

#[test]
fn the_tick_counter_wraps_round() {
    let mut engine = engine_with(vec![]);
    engine.tick_counter = usize::MAX;
    engine.tick().unwrap();
    assert_eq!(engine.tick_counter, 0);
}

#[test]
fn the_same_seed_gives_the_same_run() {
    let run = || {
        let mut engine = busy_engine();
        engine.world = diverting_world();
        engine.game.aircraft[3] = arriving("AAL4");
        engine.events.push(to("AAL4", EventKind::Segment(FlightSegment::Arrival, FlightSegment::Approach)));
        let mut all = Vec::new();
        for _ in 0..50 {
            all.push(engine.tick().unwrap());
        }
        (all, engine.game.aircraft)
    };
    assert_eq!(run(), run());
}
