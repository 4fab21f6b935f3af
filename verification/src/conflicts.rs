//! The ground conflict pass: aircraft that taxi stop for traffic ahead.

use vstd::prelude::*;

use crate::aircraft::{Aircraft, AircraftState, AircraftStateView, AircraftView, TaxiingState};
use crate::engine::{addressed, events_view, Engine, Event, EventView};
use crate::events::{emit, EventKind, EventKindView};
use crate::geometry::{
    abs_i64, angle_between_points, bearing_between, cosine, cosine_of, delta_angle,
    distance_squared, distance_squared_of, magnitude, sine, sine_of, turn_between,
};
use crate::world::{fleet_wf, Game, World};

verus! {

/// Twenty knots: the greatest speed at which an aircraft taxis.
pub const MAX_TAXI_SPEED: i64 = 20_000;

/// The square of a hundred and fifty feet, in millionths: how far ahead
/// traffic counts.
pub const CONE_FORWARD: i128 = 22_500_000_000_000_000;

/// The square of a hundred and twenty feet, in millionths: how far to the
/// side traffic counts.
pub const CONE_SIDE: i128 = 14_400_000_000_000_000;

/// Whether the pass looks at a pair: both on the ground, in the airspace of
/// one airport whose ground is automated, and not both parked.
pub open spec fn ground_pair(a: AircraftView, b: AircraftView, world: &World) -> bool {
    &&& a.state.on_ground()
    &&& b.state.on_ground()
    &&& a.airspace == b.airspace
    &&& !(a.state is Parked && b.state is Parked)
    &&& a.airspace matches Some(id) && world.status_of(id).automate_ground
}

/// Whether `b` is traffic ahead of `a`. With `D2` the square of the distance
/// and `t` the turn from the heading of `a` to the bearing of `b`, the
/// relative position of `b` is taken as `(D2 |sin t|, D2 cos t)`; it counts
/// where its second part is at least zero and at most the square of a
/// hundred and fifty feet, its first part is at most the square of a hundred
/// and twenty feet, and `a` is no faster than taxi speed.
pub open spec fn traffic_ahead(a: AircraftView, b: AircraftView) -> bool {
    let d2 = distance_squared_of(a.pos, b.pos);
    let turn = turn_between(a.heading as int, bearing_between(a.pos, b.pos));
    let forward = d2 * cosine_of(turn);
    let side = d2 * magnitude(sine_of(turn));
    &&& 0 <= forward <= CONE_FORWARD
    &&& side <= CONE_SIDE
    &&& a.speed <= MAX_TAXI_SPEED
}

/// Whether the aircraft `k` has traffic ahead among the others.
pub open spec fn in_conflict(fleet: Seq<AircraftView>, world: &World, k: int) -> bool {
    exists|o: int|
        0 <= o < fleet.len() && o != k && ground_pair(fleet[k], fleet[o], world)
            && #[trigger] traffic_ahead(fleet[k], fleet[o])
}

/// How a taxiing aircraft stands to traffic after the pass: an armed one
/// with traffic ahead is stopped; one that was stopped, or that overrode,
/// and has none is armed again.
pub open spec fn taxiing_state_after(state: TaxiingState, conflict: bool) -> TaxiingState {
    if conflict && state == TaxiingState::Armed {
        TaxiingState::Stopped
    } else if !conflict && (state == TaxiingState::Stopped || state == TaxiingState::Override) {
        TaxiingState::Armed
    } else {
        state
    }
}

/// The aircraft after the pass.
pub open spec fn conflict_settled(a: AircraftView, conflict: bool) -> AircraftView {
    match a.state {
        AircraftStateView::Taxiing { current, waypoints, state } => AircraftView {
            state: AircraftStateView::Taxiing {
                current,
                waypoints,
                state: taxiing_state_after(state, conflict),
            },
            ..a
        },
        _ => a,
    }
}

/// What the pass tells an aircraft: to hold where it is stopped, to go on
/// where it was stopped and is armed again.
pub open spec fn conflict_notice(a: AircraftView, conflict: bool) -> Seq<EventKindView> {
    match a.state {
        AircraftStateView::Taxiing { state, .. } => if conflict && state == TaxiingState::Armed {
            seq![EventKindView::TaxiHold { and_state: false }]
        } else if !conflict && state == TaxiingState::Stopped {
            seq![EventKindView::TaxiContinue]
        } else {
            Seq::empty()
        },
        _ => Seq::empty(),
    }
}

/// The fleet after the pass.
pub open spec fn conflicts_settled(fleet: Seq<AircraftView>, world: &World) -> Seq<AircraftView> {
    Seq::new(fleet.len(), |k: int| conflict_settled(fleet[k], in_conflict(fleet, world, k)))
}

/// What the pass tells the first `upto` aircraft, in their order.
pub open spec fn conflict_notices(fleet: Seq<AircraftView>, world: &World, upto: int) -> Seq<
    EventView,
>
    decreases upto,
{
    if upto <= 0 {
        Seq::empty()
    } else {
        conflict_notices(fleet, world, upto - 1) + addressed(
            fleet[upto - 1].id,
            conflict_notice(fleet[upto - 1], in_conflict(fleet, world, upto - 1)),
        )
    }
}

fn on_ground(a: &Aircraft) -> (r: bool)
    ensures
        r == a@.state.on_ground(),
{
    match &a.state {
        AircraftState::Parked { .. } => true,
        AircraftState::Taxiing { .. } => true,
        _ => false,
    }
}

fn parked(a: &Aircraft) -> (r: bool)
    ensures
        r == a@.state is Parked,
{
    match &a.state {
        AircraftState::Parked { .. } => true,
        _ => false,
    }
}

fn ground_pair_exec(a: &Aircraft, b: &Aircraft, world: &World) -> (r: bool)
    ensures
        r == ground_pair(a@, b@, world),
{
    if !(on_ground(a) && on_ground(b)) || (parked(a) && parked(b)) {
        return false;
    }
    match (a.airspace, b.airspace) {
        (Some(x), Some(y)) => x == y && world.airport_status(x).automate_ground,
        _ => false,
    }
}

fn traffic_ahead_exec(a: &Aircraft, b: &Aircraft) -> (r: bool)
    requires
        a@.wf(),
        b@.wf(),
    ensures
        r == traffic_ahead(a@, b@),
{
    let d2 = distance_squared(a.pos, b.pos);
    let turn = delta_angle(a.heading, angle_between_points(a.pos, b.pos));
    let c = cosine(turn);
    let s = abs_i64(sine(turn));
    assert(-8_000_000_000_000_000_000_000_000_000_000 <= d2 * c
        <= 8_000_000_000_000_000_000_000_000_000_000) by (nonlinear_arith)
        requires
            0 <= d2 <= 8_000_000_000_000_000_000_000_000,
            -1_000_000 <= c <= 1_000_000,
    ;
    assert(0 <= d2 * s <= 8_000_000_000_000_000_000_000_000_000_000) by (nonlinear_arith)
        requires
            0 <= d2 <= 8_000_000_000_000_000_000_000_000,
            0 <= s <= 1_000_000,
    ;
    let forward: i128 = d2 * c as i128;
    let side: i128 = d2 * s as i128;
    0 <= forward && forward <= CONE_FORWARD && side <= CONE_SIDE && a.speed <= MAX_TAXI_SPEED
}

/// Whether the aircraft `k` has traffic ahead among the others.
fn find_conflict(game: &Game, world: &World, k: usize) -> (r: bool)
    requires
        fleet_wf(game@),
        k < game.aircraft@.len(),
    ensures
        r == in_conflict(game@, world, k as int),
{
    let ghost fleet = game@;
    let n = game.aircraft.len();
    let mut o: usize = 0;
    while o < n
        invariant
            o <= n == game.aircraft@.len() == fleet.len(),
            k < n,
            fleet == game@,
            fleet_wf(fleet),
            forall|p: int|
                0 <= p < o && p != k && ground_pair(fleet[k as int], fleet[p], world)
                    ==> !#[trigger] traffic_ahead(fleet[k as int], fleet[p]),
        decreases n - o,
    {
        proof {
            assert(fleet[k as int] == game.aircraft@[k as int]@);
            assert(fleet[o as int] == game.aircraft@[o as int]@);
            assert(fleet[k as int].wf() && fleet[o as int].wf());
        }
        if o != k && ground_pair_exec(&game.aircraft[k], &game.aircraft[o], world)
            && traffic_ahead_exec(&game.aircraft[k], &game.aircraft[o]) {
            return true;
        }
        o = o + 1;
    }
    false
}

impl Engine {
    /// Stops every armed aircraft that has traffic ahead, arms again every
    /// stopped or overriding aircraft that has none, and returns what the
    /// aircraft are told.
    pub fn taxi_collisions(&mut self) -> (events: Vec<Event>)
        requires
            fleet_wf(old(self).game@),
        ensures
            final(self).game@ == conflicts_settled(old(self).game@, &old(self).world),
            events_view(events@) == conflict_notices(
                old(self).game@,
                &old(self).world,
                old(self).game@.len() as int,
            ),
            final(self).same_but_game(old(self)),
            fleet_wf(final(self).game@),
    {
        let ghost fleet = self.game@;
        let n = self.game.aircraft.len();
        let mut conflicts: Vec<bool> = Vec::new();
        let mut k: usize = 0;
        while k < n
            invariant
                k <= n == self.game.aircraft@.len(),
                self.game@ == fleet,
                fleet_wf(fleet),
                conflicts@.len() == k,
                forall|i: int| 0 <= i < k ==> conflicts@[i] == in_conflict(fleet, &self.world, i),
            decreases n - k,
        {
            let found = find_conflict(&self.game, &self.world, k);
            conflicts.push(found);
            k = k + 1;
        }
        let mut events: Vec<Event> = Vec::new();
        let mut k: usize = 0;
        assert(events_view(events@) =~= conflict_notices(fleet, &self.world, 0));
        while k < n
            invariant
                k <= n == fleet.len() == self.game.aircraft@.len() == conflicts@.len(),
                fleet_wf(fleet),
                self.same_but_game(old(self)),
                fleet == old(self).game@,
                forall|i: int| 0 <= i < n ==> conflicts@[i] == in_conflict(fleet, &self.world, i),
                forall|i: int|
                    0 <= i < k ==> self.game@[i] == conflict_settled(fleet[i], conflicts@[i]),
                forall|i: int| k <= i < n ==> self.game@[i] == fleet[i],
                events_view(events@) == conflict_notices(fleet, &self.world, k as int),
            decreases n - k,
        {
            let ghost before = self.game@;
            let ghost sent = events_view(events@);
            assert(before[k as int] == self.game.aircraft@[k as int]@);
            let conflict = conflicts[k];
            let aircraft = &mut self.game.aircraft[k];
            let id = aircraft.id;
            let mut told = false;
            match &mut aircraft.state {
                AircraftState::Taxiing { state, .. } => {
                    if conflict && *state == TaxiingState::Armed {
                        *state = TaxiingState::Stopped;
                        emit(&mut events, id, EventKind::TaxiHold { and_state: false });
                        told = true;
                    } else if !conflict && (*state == TaxiingState::Stopped || *state
                        == TaxiingState::Override) {
                        if *state == TaxiingState::Stopped {
                            emit(&mut events, id, EventKind::TaxiContinue);
                            told = true;
                        }
                        *state = TaxiingState::Armed;
                    }
                },
                _ => {},
            }
            proof {
                if !told {
                    assert(events_view(events@) =~= sent + addressed(id, Seq::empty()));
                }
                assert forall|i: int| 0 <= i < k + 1 implies self.game@[i] == conflict_settled(
                    fleet[i],
                    conflicts@[i],
                ) by {
                    if i < k {
                        assert(self.game@[i] == before[i]);
                    }
                }
                assert forall|i: int| k + 1 <= i < n implies self.game@[i] == fleet[i] by {
                    assert(self.game@[i] == before[i]);
                }
            }
            k = k + 1;
        }
        assert(self.game@ =~= conflicts_settled(fleet, &self.world));
        events
    }
}

} // verus!
