//! En-route waypoints and the flight plan that strings them together.

use vstd::prelude::*;

use crate::geometry::{
    angle_between_points, bearing_between, delta_angle, distance_squared, distance_squared_of,
    integer_sqrt, root_of, turn_between, Point,
};
use crate::names::Name;
use crate::pathfinder::{Node, NodeBehavior, NodeKind};

verus! {

/// A bound that a waypoint puts on altitude or speed.
#[derive(Clone, Copy, Debug, PartialEq, Eq)]
pub enum VORLimit {
    Unlimited,
    At(i64),
    AtOrAbove(i64),
    AtOrBelow(i64),
}

/// The bounds that a waypoint puts on the targets of an aircraft that flies
/// toward it.
#[derive(Clone, Copy, Debug, PartialEq, Eq)]
pub struct VORLimits {
    pub altitude: VORLimit,
    pub speed: VORLimit,
}

impl VORLimits {
    /// No limits.
    pub fn new() -> (r: VORLimits)
        ensures
            r == (VORLimits { altitude: VORLimit::Unlimited, speed: VORLimit::Unlimited }),
    {
        VORLimits { altitude: VORLimit::Unlimited, speed: VORLimit::Unlimited }
    }

    /// The limits with another limit on altitude.
    pub fn with_altitude(self, altitude: VORLimit) -> (r: VORLimits)
        ensures
            r == (VORLimits { altitude, ..self }),
    {
        VORLimits { altitude, speed: self.speed }
    }

    /// The limits with another limit on speed.
    pub fn with_speed(self, speed: VORLimit) -> (r: VORLimits)
        ensures
            r == (VORLimits { speed, ..self }),
    {
        VORLimits { altitude: self.altitude, speed }
    }
}

/// What an aircraft is told when it crosses a waypoint, in the order in which
/// it is told: a floor for its speed, a floor for its altitude, a frequency.
#[derive(Clone, Copy, Debug, PartialEq, Eq)]
pub struct VORActions {
    pub speed_at_or_above: Option<i64>,
    pub altitude_at_or_above: Option<i64>,
    pub frequency: Option<i64>,
}

impl VORActions {
    /// Nothing asked.
    pub open spec fn empty() -> VORActions {
        VORActions { speed_at_or_above: None, altitude_at_or_above: None, frequency: None }
    }
}

/// The payload of an en-route waypoint.
#[derive(Clone, Copy, Debug, PartialEq, Eq)]
pub struct VORData {
    pub pos: Point,
    pub actions: VORActions,
    pub limits: VORLimits,
}

impl VORData {
    /// A waypoint payload without actions or limits.
    pub open spec fn plain(pos: Point) -> VORData {
        VORData {
            pos,
            actions: VORActions::empty(),
            limits: VORLimits { altitude: VORLimit::Unlimited, speed: VORLimit::Unlimited },
        }
    }

    /// A waypoint payload without actions or limits.
    pub fn new(pos: Point) -> (r: VORData)
        ensures
            r == VORData::plain(pos),
    {
        VORData {
            pos,
            actions: VORActions {
                speed_at_or_above: None,
                altitude_at_or_above: None,
                frequency: None,
            },
            limits: VORLimits::new(),
        }
    }
}

/// The en-route waypoint with the given name and position, without actions
/// or limits.
pub open spec fn plain_vor(name: Name, pos: Point) -> Node<VORData> {
    Node { name, kind: NodeKind::VOR, behavior: NodeBehavior::GoTo, data: VORData::plain(pos) }
}

/// An en-route waypoint without actions or limits.
pub fn new_vor(name: Name, pos: Point) -> (r: Node<VORData>)
    ensures
        r == plain_vor(name, pos),
{
    Node { name, kind: NodeKind::VOR, behavior: NodeBehavior::GoTo, data: VORData::new(pos) }
}

impl Node<VORData> {
    /// The waypoint with what it asks replaced.
    pub fn with_actions(self, actions: VORActions) -> (r: Node<VORData>)
        ensures
            r == (Node { data: VORData { actions, ..self.data }, ..self }),
    {
        Node {
            name: self.name,
            kind: self.kind,
            behavior: self.behavior,
            data: VORData { pos: self.data.pos, actions, limits: self.data.limits },
        }
    }

    /// The waypoint with its limits replaced.
    pub fn with_limits(self, limits: VORLimits) -> (r: Node<VORData>)
        ensures
            r == (Node { data: VORData { limits, ..self.data }, ..self }),
    {
        Node {
            name: self.name,
            kind: self.kind,
            behavior: self.behavior,
            data: VORData { pos: self.data.pos, actions: self.data.actions, limits },
        }
    }
}

/// The route of a flight: where it leaves and arrives, its planned cruise and
/// the waypoints that it follows.
#[derive(Clone, Debug, PartialEq, Eq)]
pub struct FlightPlan {
    pub departing: Name,
    pub arriving: Name,
    /// Planned cruise altitude.
    pub altitude: i64,
    /// Planned cruise speed.
    pub speed: i64,
    pub waypoints: Vec<Node<VORData>>,
    /// The index of the waypoint that is flown to next; the number of
    /// waypoints once the last one is passed.
    pub waypoint_index: usize,
    /// Side-step applied to the course of the active leg, positive to the right.
    pub course_offset: i64,
    /// Whether the aircraft steers along the waypoints.
    pub follow: bool,
}

/// The mathematical value of a flight plan.
pub struct FlightPlanView {
    pub departing: Name,
    pub arriving: Name,
    pub altitude: i64,
    pub speed: i64,
    pub waypoints: Seq<Node<VORData>>,
    pub waypoint_index: int,
    pub course_offset: i64,
    pub follow: bool,
}

impl View for FlightPlan {
    type V = FlightPlanView;

    open spec fn view(&self) -> FlightPlanView {
        FlightPlanView {
            departing: self.departing,
            arriving: self.arriving,
            altitude: self.altitude,
            speed: self.speed,
            waypoints: self.waypoints@,
            waypoint_index: self.waypoint_index as int,
            course_offset: self.course_offset,
            follow: self.follow,
        }
    }
}

/// The length of the way from `from` through all of `legs`, each leg rounded
/// down to a whole unit.
pub open spec fn route_length(from: Point, legs: Seq<Node<VORData>>) -> int
    decreases legs.len(),
{
    if legs.len() == 0 {
        0
    } else {
        let before = if legs.len() == 1 {
            from
        } else {
            legs[legs.len() - 2].data.pos
        };
        route_length(from, legs.drop_last()) + root_of(
            distance_squared_of(before, legs.last().data.pos),
        )
    }
}

impl FlightPlanView {
    /// The index lies within the waypoints or just behind them, and every
    /// waypoint lies on the map.
    pub open spec fn wf(self) -> bool {
        &&& 0 <= self.waypoint_index <= self.waypoints.len()
        &&& forall|i: int| 0 <= i < self.waypoints.len() ==> (#[trigger] self.waypoints[i]).data.pos.in_range()
    }

    /// Whether every waypoint has been passed.
    pub open spec fn at_end(self) -> bool {
        self.waypoint_index == self.waypoints.len()
    }

    /// The waypoints that are still to be flown.
    pub open spec fn active_waypoints(self) -> Seq<Node<VORData>> {
        self.waypoints.subrange(self.waypoint_index, self.waypoints.len() as int)
    }

    /// The name of the last waypoint still to be flown, or the empty name.
    pub open spec fn final_name(self) -> Name {
        if self.at_end() {
            Name(0)
        } else {
            self.waypoints.last().name
        }
    }

    /// The way from `pos` to the last waypoint along those still to be flown,
    /// or `None` when none is left.
    pub open spec fn distance_to_last(self, pos: Point) -> Option<int> {
        if self.at_end() {
            None
        } else {
            Some(route_length(pos, self.active_waypoints()))
        }
    }

    /// The turn at the next waypoint: from the course toward it to the course
    /// of the leg behind it; zero where there is no leg behind it.
    pub open spec fn turn_bias(self, pos: Point) -> int {
        if self.waypoint_index + 1 < self.waypoints.len() {
            let current = self.waypoints[self.waypoint_index].data.pos;
            let next = self.waypoints[self.waypoint_index + 1].data.pos;
            turn_between(bearing_between(pos, current), bearing_between(current, next))
        } else {
            0
        }
    }

    /// The plan with everything from the current waypoint on replaced.
    pub open spec fn amended(self, tail: Seq<Node<VORData>>) -> FlightPlanView {
        FlightPlanView { waypoints: self.waypoints.take(self.waypoint_index) + tail, ..self }
    }
}

impl FlightPlan {
    /// A plan between two airports without waypoints.
    pub fn new(departing: Name, arriving: Name) -> (r: FlightPlan)
        ensures
            r@ == (FlightPlanView {
                departing,
                arriving,
                altitude: 0,
                speed: 0,
                waypoints: Seq::empty(),
                waypoint_index: 0,
                course_offset: 0,
                follow: true,
            }),
            r@.wf(),
    {
        FlightPlan {
            departing,
            arriving,
            altitude: 0,
            speed: 0,
            waypoints: Vec::new(),
            waypoint_index: 0,
            course_offset: 0,
            follow: true,
        }
    }

    /// Whether the plan is sound.
    pub fn is_wf(&self) -> (r: bool)
        ensures
            r == self@.wf(),
    {
        if self.waypoint_index > self.waypoints.len() {
            return false;
        }
        let mut i: usize = 0;
        while i < self.waypoints.len()
            invariant
                i <= self.waypoints@.len(),
                forall|j: int| 0 <= j < i ==> (#[trigger] self.waypoints@[j]).data.pos.in_range(),
            decreases self.waypoints.len() - i,
        {
            if !self.waypoints[i].data.pos.is_in_range() {
                return false;
            }
            i = i + 1;
        }
        true
    }

    /// Whether every waypoint has been passed.
    pub fn at_end(&self) -> (r: bool)
        requires
            self@.wf(),
        ensures
            r == self@.at_end(),
    {
        self.waypoint_index == self.waypoints.len()
    }

    /// The waypoint that is flown to next.
    pub fn waypoint(&self) -> (r: Option<Node<VORData>>)
        requires
            self@.wf(),
        ensures
            r == if self@.at_end() {
                None
            } else {
                Some(self@.waypoints[self@.waypoint_index])
            },
    {
        if self.waypoint_index < self.waypoints.len() {
            Some(self.waypoints[self.waypoint_index])
        } else {
            None
        }
    }

    /// Makes the waypoint at `index` the next one; an index behind the last
    /// waypoint ends the plan.
    pub fn set_index(&mut self, index: usize)
        ensures
            final(self)@ == (FlightPlanView {
                waypoint_index: if index <= old(self)@.waypoints.len() {
                    index as int
                } else {
                    old(self)@.waypoints.len() as int
                },
                ..old(self)@
            }),
    {
        if index <= self.waypoints.len() {
            self.waypoint_index = index;
        } else {
            self.waypoint_index = self.waypoints.len();
        }
    }

    /// Replaces everything from the current waypoint on with `tail`.
    pub fn amend_end(&mut self, tail: Vec<Node<VORData>>)
        requires
            old(self)@.wf(),
        ensures
            final(self)@ == old(self)@.amended(tail@),
    {
        let mut tail = tail;
        self.waypoints.truncate(self.waypoint_index);
        self.waypoints.append(&mut tail);
    }

    /// Has the aircraft steer along the waypoints.
    pub fn start_following(&mut self)
        ensures
            final(self)@ == (FlightPlanView { follow: true, ..old(self)@ }),
    {
        self.follow = true;
    }

    /// Has the aircraft steer by hand.
    pub fn stop_following(&mut self)
        ensures
            final(self)@ == (FlightPlanView { follow: false, ..old(self)@ }),
    {
        self.follow = false;
    }

    /// Drops every waypoint.
    pub fn clear_waypoints(&mut self)
        ensures
            final(self)@ == (FlightPlanView {
                waypoints: Seq::empty(),
                waypoint_index: 0,
                ..old(self)@
            }),
    {
        self.waypoints = Vec::new();
        self.waypoint_index = 0;
    }

    /// The name of the last waypoint still to be flown, or the empty name.
    pub fn final_name(&self) -> (r: Name)
        requires
            self@.wf(),
        ensures
            r == self@.final_name(),
    {
        if self.waypoint_index < self.waypoints.len() {
            self.waypoints[self.waypoints.len() - 1].name
        } else {
            Name(0)
        }
    }

    /// The way from `pos` to the last waypoint along those still to be flown.
    pub fn distance_to_last(&self, pos: Point) -> (r: Option<i128>)
        requires
            self@.wf(),
            pos.in_range(),
        ensures
            r is Some == self@.distance_to_last(pos) is Some,
            r matches Some(d) ==> self@.distance_to_last(pos) == Some(d as int),
            r matches Some(d) ==> 0 <= d <= 3_000_000_000_000 * self.waypoints.len(),
    {
        if self.waypoint_index >= self.waypoints.len() {
            return None;
        }
        let ghost active = self@.active_waypoints();
        let mut total: i128 = 0;
        let mut before = pos;
        let mut i: usize = self.waypoint_index;
        while i < self.waypoints.len()
            invariant
                self@.wf(),
                pos.in_range(),
                before.in_range(),
                self.waypoint_index <= i <= self.waypoints.len(),
                active == self@.active_waypoints(),
                before == if i == self.waypoint_index {
                    pos
                } else {
                    self.waypoints[i - 1].data.pos
                },
                total == route_length(pos, active.take(i - self.waypoint_index)),
                0 <= total <= 3_000_000_000_000 * (i - self.waypoint_index),
            decreases self.waypoints.len() - i,
        {
            let here = self.waypoints[i].data.pos;
            let leg = integer_sqrt(distance_squared(before, here));
            proof {
                let k = i - self.waypoint_index;
                let legs = active.take(k + 1);
                assert(legs.drop_last() =~= active.take(k));
                assert(legs.last() == self.waypoints[i as int]);
                if k > 0 {
                    assert(legs[legs.len() - 2] == self.waypoints[i - 1]);
                }
            }
            total = total + leg as i128;
            before = here;
            i = i + 1;
        }
        proof {
            assert(active.take(i - self.waypoint_index) =~= active);
            assert(3_000_000_000_000 * (i - self.waypoint_index) <= 3_000_000_000_000
                * self.waypoints.len()) by (nonlinear_arith)
                requires
                    0 <= i - self.waypoint_index <= self.waypoints.len(),
            ;
        }
        Some(total)
    }

    /// The turn at the next waypoint, positive to the right; zero where no
    /// leg follows it.
    pub fn turn_bias(&self, pos: Point) -> (r: i64)
        requires
            self@.wf(),
            pos.in_range(),
        ensures
            r == self@.turn_bias(pos),
    {
        if self.waypoint_index < self.waypoints.len() && self.waypoints.len()
            - self.waypoint_index > 1 {
            let current = self.waypoints[self.waypoint_index].data.pos;
            let next = self.waypoints[self.waypoint_index + 1].data.pos;
            delta_angle(angle_between_points(pos, current), angle_between_points(current, next))
        } else {
            0
        }
    }
}

} // verus!
