//! The airborne collision avoidance pass.

use vstd::prelude::*;

use crate::aircraft::{Aircraft, AircraftState, AircraftView, TCAS};
use crate::engine::{addressed, events_view, Engine, Event, EventView};
use crate::events::{emit, EventKind, EventKindView};
use crate::geometry::{
    abs_i64, angle_between_points, bearing_between, delta_angle, distance_squared,
    distance_squared_of, magnitude, turn_between, KNOT_TO_FEET_PER_SECOND,
};
use crate::pairs::{index_pairs, index_pairs_of, lemma_pairs_in_bounds, pairs_from};
use crate::world::fleet_wf;

verus! {

/// Two thousand feet: the altitude above which the pass looks at an aircraft.
pub const TCAS_FLOOR: i64 = 2_000_000;

/// A thousand feet: the vertical distance under which a resolution is advised.
pub const RESOLUTION_VERTICAL: i64 = 1_000_000;

/// Two thousand feet: the vertical distance under which traffic is advised.
pub const TRAFFIC_VERTICAL: i64 = 2_000_000;

/// The way that an aircraft covers while it descends five hundred feet:
/// `(500 / climb rate) * speed * 1.68781`, the climb rate in feet per second,
/// the speed in knots, the factor that of knots to feet per second.
pub open spec fn feet_to_descend(a: AircraftView) -> int {
    (500_000 * a.speed * KNOT_TO_FEET_PER_SECOND) / (a.performance.climb_rate * 100_000)
}

/// Whether `a` faces `b`: the bearing from `a` to `b` is less than a quarter
/// turn off the heading of `a`.
pub open spec fn faces(a: AircraftView, b: AircraftView) -> bool {
    magnitude(turn_between(bearing_between(a.pos, b.pos), a.heading as int)) < 90_000
}

/// Whether the pass looks at a pair: both fly, both above the floor.
pub open spec fn tcas_gated(a: AircraftView, b: AircraftView) -> bool {
    &&& a.state is Flying
    &&& b.state is Flying
    &&& a.altitude > TCAS_FLOOR
    &&& b.altitude > TCAS_FLOOR
}

/// The horizontal distance under which a resolution is advised.
pub open spec fn resolution_reach(a: AircraftView, b: AircraftView) -> int {
    feet_to_descend(a) + feet_to_descend(b)
}

/// Whether a pair is within the resolution threshold.
pub open spec fn in_resolution(a: AircraftView, b: AircraftView) -> bool {
    &&& magnitude(a.altitude - b.altitude) < RESOLUTION_VERTICAL
    &&& distance_squared_of(a.pos, b.pos) <= resolution_reach(a, b) * resolution_reach(a, b)
}

/// Whether a pair is within the traffic threshold.
pub open spec fn in_traffic(a: AircraftView, b: AircraftView) -> bool {
    &&& magnitude(a.altitude - b.altitude) < TRAFFIC_VERTICAL
    &&& distance_squared_of(a.pos, b.pos) <= (2 * resolution_reach(a, b)) * (2 * resolution_reach(
        a,
        b,
    ))
}

/// What is advised to an aircraft in traffic: to hold its altitude after a
/// resolution, a warning otherwise.
pub open spec fn traffic_advisory(a: AircraftView) -> TCAS {
    if a.tcas.is_resolution() {
        TCAS::Hold
    } else {
        TCAS::Warning
    }
}

/// What a pair advises to its first and its second aircraft, if anything.
/// Only a pair of which one faces the other advises at all. Within the
/// resolution threshold the lower aircraft descends and the other climbs;
/// else, within the traffic threshold, both are advised of traffic.
pub open spec fn pair_advisory(a: AircraftView, b: AircraftView) -> Option<(TCAS, TCAS)> {
    if !tcas_gated(a, b) || !(faces(a, b) || faces(b, a)) {
        None
    } else if in_resolution(a, b) {
        if a.altitude < b.altitude {
            Some((TCAS::Descend, TCAS::Climb))
        } else {
            Some((TCAS::Climb, TCAS::Descend))
        }
    } else if in_traffic(a, b) {
        Some((traffic_advisory(a), traffic_advisory(b)))
    } else {
        None
    }
}

/// What is advised to each aircraft once the pairs have been looked at in
/// order: a later pair overrides an earlier one.
pub open spec fn advisories(fleet: Seq<AircraftView>, pairs: Seq<(int, int)>) -> Seq<Option<TCAS>>
    decreases pairs.len(),
{
    if pairs.len() == 0 {
        Seq::new(fleet.len(), |i: int| None)
    } else {
        let before = advisories(fleet, pairs.drop_last());
        let (i, j) = pairs.last();
        match pair_advisory(fleet[i], fleet[j]) {
            Some((first, second)) => before.update(i, Some(first)).update(j, Some(second)),
            None => before,
        }
    }
}

/// What is advised to each aircraft of a fleet by all its pairs.
pub open spec fn fleet_advisories(fleet: Seq<AircraftView>) -> Seq<Option<TCAS>> {
    advisories(fleet, index_pairs_of(fleet.len() as int))
}

/// The aircraft with what it is advised: the advisory, or idle without one.
pub open spec fn advised(a: AircraftView, advisory: Option<TCAS>) -> AircraftView {
    AircraftView {
        tcas: match advisory {
            Some(t) => t,
            None => TCAS::Idle,
        },
        ..a
    }
}

/// The fleet after the pass.
pub open spec fn tcas_applied(fleet: Seq<AircraftView>) -> Seq<AircraftView> {
    Seq::new(fleet.len(), |k: int| advised(fleet[k], fleet_advisories(fleet)[k]))
}

/// The callouts of the first `upto` aircraft: one for each that had a
/// resolution advisory and is advised nothing now.
pub open spec fn tcas_callouts(fleet: Seq<AircraftView>, given: Seq<Option<TCAS>>, upto: int) -> Seq<
    EventView,
>
    decreases upto,
{
    if upto <= 0 {
        Seq::empty()
    } else {
        let before = tcas_callouts(fleet, given, upto - 1);
        let a = fleet[upto - 1];
        if given[upto - 1] is None && a.tcas.is_resolution() {
            before + addressed(a.id, seq![EventKindView::CalloutTARA])
        } else {
            before
        }
    }
}

fn feet_to_descend_exec(a: &Aircraft) -> (r: i128)
    requires
        a@.wf(),
    ensures
        r == feet_to_descend(a@),
        0 <= r <= 843_905_000_000_000_000,
{
    let speed: i128 = a.speed as i128;
    let climb: i128 = a.performance.climb_rate as i128;
    let numerator: i128 = 500_000 * speed * KNOT_TO_FEET_PER_SECOND as i128;
    let denominator: i128 = climb * 100_000;
    let r = numerator / denominator;
    assert(0 <= r <= numerator) by (nonlinear_arith)
        requires
            r == numerator / denominator,
            0 <= numerator,
            1 <= denominator,
    ;
    r
}

fn faces_exec(a: &Aircraft, b: &Aircraft) -> (r: bool)
    requires
        a@.wf(),
        b@.wf(),
    ensures
        r == faces(a@, b@),
{
    abs_i64(delta_angle(angle_between_points(a.pos, b.pos), a.heading)) < 90_000
}

fn flying(a: &Aircraft) -> (r: bool)
    ensures
        r == a@.state is Flying,
{
    match &a.state {
        AircraftState::Flying => true,
        _ => false,
    }
}

fn traffic_advisory_exec(a: &Aircraft) -> (r: TCAS)
    ensures
        r == traffic_advisory(a@),
{
    if a.tcas.is_ra() {
        TCAS::Hold
    } else {
        TCAS::Warning
    }
}

/// What a pair advises to its two aircraft.
pub fn advise_pair(a: &Aircraft, b: &Aircraft) -> (r: Option<(TCAS, TCAS)>)
    requires
        a@.wf(),
        b@.wf(),
    ensures
        r == pair_advisory(a@, b@),
{
    if !(flying(a) && flying(b) && a.altitude > TCAS_FLOOR && b.altitude > TCAS_FLOOR) {
        return None;
    }
    if !(faces_exec(a, b) || faces_exec(b, a)) {
        return None;
    }
    let distance = distance_squared(a.pos, b.pos);
    let vertical = abs_i64(a.altitude - b.altitude);
    let reach = feet_to_descend_exec(a) + feet_to_descend_exec(b);
    assert(0 <= reach * reach <= 1_687_810_000_000_000_000 * 1_687_810_000_000_000_000)
        by (nonlinear_arith)
        requires
            0 <= reach <= 1_687_810_000_000_000_000,
    ;
    assert(0 <= (2 * reach) * (2 * reach) <= 3_375_620_000_000_000_000
        * 3_375_620_000_000_000_000) by (nonlinear_arith)
        requires
            0 <= reach <= 1_687_810_000_000_000_000,
    ;
    if vertical < RESOLUTION_VERTICAL && distance <= reach * reach {
        if a.altitude < b.altitude {
            Some((TCAS::Descend, TCAS::Climb))
        } else {
            Some((TCAS::Climb, TCAS::Descend))
        }
    } else if vertical < TRAFFIC_VERTICAL && distance <= (2 * reach) * (2 * reach) {
        Some((traffic_advisory_exec(a), traffic_advisory_exec(b)))
    } else {
        None
    }
}

impl Engine {
    /// Looks at every pair of aircraft, in the order of their indices,
    /// advises each aircraft what its last advising pair advises, or
    /// nothing, and returns a callout for each aircraft that had a
    /// resolution advisory and is advised nothing now.
    pub fn handle_tcas(&mut self) -> (events: Vec<Event>)
        requires
            fleet_wf(old(self).game@),
        ensures
            final(self).game@ == tcas_applied(old(self).game@),
            events_view(events@) == tcas_callouts(
                old(self).game@,
                fleet_advisories(old(self).game@),
                old(self).game@.len() as int,
            ),
            final(self).same_but_game(old(self)),
            fleet_wf(final(self).game@),
    {
        let ghost fleet = self.game@;
        let n = self.game.aircraft.len();
        let pairs = index_pairs(n);
        let ghost all = index_pairs_of(n as int);
        proof {
            lemma_pairs_in_bounds(0, 1, n as int);
        }
        let mut given: Vec<Option<TCAS>> = Vec::new();
        let mut k: usize = 0;
        while k < n
            invariant
                k <= n,
                given@.len() == k,
                forall|i: int| 0 <= i < k ==> given@[i] is None,
            decreases n - k,
        {
            given.push(None);
            k = k + 1;
        }
        assert(given@ =~= advisories(fleet, all.take(0)));
        let mut p: usize = 0;
        while p < pairs.len()
            invariant
                p <= pairs@.len() == all.len(),
                n == fleet.len() == self.game.aircraft@.len(),
                self.game@ == fleet,
                fleet_wf(fleet),
                forall|k: int|
                    0 <= k < pairs@.len() ==> (#[trigger] pairs@[k]).0 == all[k].0 && pairs@[k].1
                        == all[k].1,
                forall|k: int| 0 <= k < all.len() ==> 0 <= (#[trigger] all[k]).0 < all[k].1 < n,
                given@ == advisories(fleet, all.take(p as int)),
                given@.len() == n,
            decreases pairs.len() - p,
        {
            let (i, j) = pairs[p];
            proof {
                assert(all.take(p + 1).drop_last() =~= all.take(p as int));
                assert(all.take(p + 1).last() == all[p as int]);
                assert(fleet[i as int] == self.game.aircraft@[i as int]@);
                assert(fleet[j as int] == self.game.aircraft@[j as int]@);
                assert(fleet[i as int].wf() && fleet[j as int].wf());
            }
            match advise_pair(&self.game.aircraft[i], &self.game.aircraft[j]) {
                Some((first, second)) => {
                    given.set(i, Some(first));
                    given.set(j, Some(second));
                },
                None => {},
            }
            p = p + 1;
        }
        assert(all.take(p as int) =~= all);
        let mut events: Vec<Event> = Vec::new();
        let mut k: usize = 0;
        assert(events_view(events@) =~= tcas_callouts(fleet, given@, 0));
        while k < n
            invariant
                k <= n == fleet.len() == self.game.aircraft@.len() == given@.len(),
                given@ == fleet_advisories(fleet),
                fleet_wf(fleet),
                self.same_but_game(old(self)),
                forall|i: int| 0 <= i < k ==> self.game@[i] == advised(fleet[i], given@[i]),
                forall|i: int| k <= i < n ==> self.game@[i] == fleet[i],
                events_view(events@) == tcas_callouts(fleet, given@, k as int),
            decreases n - k,
        {
            let ghost before = self.game@;
            assert(before[k as int] == self.game.aircraft@[k as int]@);
            let advisory = given[k];
            let aircraft = &mut self.game.aircraft[k];
            match advisory {
                Some(t) => {
                    aircraft.tcas = t;
                },
                None => {
                    if aircraft.tcas.is_ra() {
                        emit(&mut events, aircraft.id, EventKind::CalloutTARA);
                    }
                    aircraft.tcas = TCAS::Idle;
                },
            }
            proof {
                assert forall|i: int| 0 <= i < k + 1 implies self.game@[i] == advised(
                    fleet[i],
                    given@[i],
                ) by {
                    if i < k {
                        assert(self.game@[i] == before[i]);
                    }
                }
                assert forall|i: int| k + 1 <= i < n implies self.game@[i] == fleet[i] by {
                    assert(self.game@[i] == before[i]);
                }
            }
            k = k + 1;
        }
        assert(self.game@ =~= tcas_applied(fleet));
        events
    }
}

/// The advisories with what one pair advises put in.
pub open spec fn with_pair(
    given: Seq<Option<TCAS>>,
    fleet: Seq<AircraftView>,
    pair: (int, int),
) -> Seq<Option<TCAS>> {
    match pair_advisory(fleet[pair.0], fleet[pair.1]) {
        Some((first, second)) => given.update(pair.0, Some(first)).update(pair.1, Some(second)),
        None => given,
    }
}

/// The advisories with what the pairs advise put in, the first pair first.
pub open spec fn advise_through(
    given: Seq<Option<TCAS>>,
    fleet: Seq<AircraftView>,
    pairs: Seq<(int, int)>,
) -> Seq<Option<TCAS>>
    decreases pairs.len(),
{
    if pairs.len() == 0 {
        given
    } else {
        advise_through(with_pair(given, fleet, pairs[0]), fleet, pairs.drop_first())
    }
}

/// What the pair `(p, q)` advises to the aircraft `t`.
pub open spec fn advice_to(fleet: Seq<AircraftView>, p: int, q: int, t: int) -> Option<TCAS> {
    match pair_advisory(fleet[p], fleet[q]) {
        Some((first, second)) => if t == q {
            Some(second)
        } else if t == p {
            Some(first)
        } else {
            None
        },
        None => None,
    }
}

/// Whether the pair `(p, q)` comes after the pair `(i, j)` in the order in
/// which the pass looks at the pairs.
pub open spec fn looked_at_later(p: int, q: int, i: int, j: int) -> bool {
    p > i || (p == i && q > j)
}

proof fn lemma_through_last(
    given: Seq<Option<TCAS>>,
    fleet: Seq<AircraftView>,
    pairs: Seq<(int, int)>,
)
    requires
        pairs.len() > 0,
    ensures
        advise_through(given, fleet, pairs) == with_pair(
            advise_through(given, fleet, pairs.drop_last()),
            fleet,
            pairs.last(),
        ),
    decreases pairs.len(),
{
    if pairs.len() == 1 {
        assert(pairs.drop_first() =~= Seq::empty());
        assert(pairs.drop_last() =~= Seq::empty());
        assert(advise_through(with_pair(given, fleet, pairs[0]), fleet, pairs.drop_first())
            == with_pair(given, fleet, pairs[0]));
    } else {
        let next = with_pair(given, fleet, pairs[0]);
        lemma_through_last(next, fleet, pairs.drop_first());
        assert(pairs.drop_first().drop_last() =~= pairs.drop_last().drop_first());
        assert(pairs.drop_last()[0] == pairs[0]);
    }
}

proof fn lemma_advisories_through(fleet: Seq<AircraftView>, pairs: Seq<(int, int)>)
    ensures
        advisories(fleet, pairs) == advise_through(
            Seq::new(fleet.len(), |i: int| None),
            fleet,
            pairs,
        ),
    decreases pairs.len(),
{
    if pairs.len() > 0 {
        lemma_advisories_through(fleet, pairs.drop_last());
        lemma_through_last(Seq::new(fleet.len(), |i: int| None), fleet, pairs);
    }
}

/// An advisory stands through later pairs that advise the aircraft nothing
/// else.
proof fn lemma_advice_stands(
    given: Seq<Option<TCAS>>,
    fleet: Seq<AircraftView>,
    t: int,
    v: TCAS,
    a: int,
    b: int,
)
    requires
        given.len() == fleet.len(),
        0 <= t < fleet.len(),
        given[t] == Some(v),
        0 <= a < b,
        forall|p: int, q: int|
            0 <= p < q < fleet.len() && (p > a || (p == a && q >= b)) ==> (#[trigger] advice_to(
                fleet,
                p,
                q,
                t,
            ) is None || advice_to(fleet, p, q, t) == Some(v)),
    ensures
        advise_through(given, fleet, pairs_from(a, b, fleet.len() as int)).len() == fleet.len(),
        advise_through(given, fleet, pairs_from(a, b, fleet.len() as int))[t] == Some(v),
    decreases fleet.len() - a, fleet.len() - b,
{
    let n = fleet.len() as int;
    if a + 1 >= n {
        assert(pairs_from(a, b, n) =~= Seq::empty());
    } else if b >= n {
        assert(pairs_from(a, b, n) == pairs_from(a + 1, a + 2, n));
        lemma_advice_stands(given, fleet, t, v, a + 1, a + 2);
    } else {
        let rest = pairs_from(a, b + 1, n);
        let all = pairs_from(a, b, n);
        assert(all == seq![(a, b)] + rest);
        assert(all.drop_first() =~= rest);
        assert(all[0] == (a, b));
        let next = with_pair(given, fleet, (a, b));
        assert(advice_to(fleet, a, b, t) is None || advice_to(fleet, a, b, t) == Some(v));
        assert(next.len() == n && next[t] == Some(v));
        lemma_advice_stands(next, fleet, t, v, a, b + 1);
    }
}

/// What a pair advises stands through the pairs from `(a, b)` on where
/// that pair is among them and no later pair advises its aircraft
/// anything else.
proof fn lemma_pair_stands(
    given: Seq<Option<TCAS>>,
    fleet: Seq<AircraftView>,
    i: int,
    j: int,
    x: TCAS,
    y: TCAS,
    a: int,
    b: int,
)
    requires
        given.len() == fleet.len(),
        0 <= i < j < fleet.len(),
        pair_advisory(fleet[i], fleet[j]) == Some((x, y)),
        0 <= a < b,
        !looked_at_later(a, b, i, j),
        b <= fleet.len(),
        forall|p: int, q: int|
            0 <= p < q < fleet.len() && looked_at_later(p, q, i, j) ==> (#[trigger] advice_to(
                fleet,
                p,
                q,
                i,
            ) is None || advice_to(fleet, p, q, i) == Some(x)),
        forall|p: int, q: int|
            0 <= p < q < fleet.len() && looked_at_later(p, q, i, j) ==> (#[trigger] advice_to(
                fleet,
                p,
                q,
                j,
            ) is None || advice_to(fleet, p, q, j) == Some(y)),
    ensures
        advise_through(given, fleet, pairs_from(a, b, fleet.len() as int))[i] == Some(x),
        advise_through(given, fleet, pairs_from(a, b, fleet.len() as int))[j] == Some(y),
    decreases fleet.len() - a, fleet.len() - b,
{
    let n = fleet.len() as int;
    if b >= n {
        assert(a < i);
        assert(pairs_from(a, b, n) == pairs_from(a + 1, a + 2, n));
        lemma_pair_stands(given, fleet, i, j, x, y, a + 1, a + 2);
    } else {
        let rest = pairs_from(a, b + 1, n);
        let all = pairs_from(a, b, n);
        assert(all == seq![(a, b)] + rest);
        assert(all.drop_first() =~= rest);
        assert(all[0] == (a, b));
        let next = with_pair(given, fleet, (a, b));
        assert(next.len() == n);
        if a == i && b == j {
            assert(next[i] == Some(x) && next[j] == Some(y));
            assert forall|p: int, q: int|
                0 <= p < q < fleet.len() && (p > a || (p == a && q >= b + 1)) implies (
            #[trigger] advice_to(fleet, p, q, i) is None || advice_to(fleet, p, q, i) == Some(
                x,
            )) by {
                assert(looked_at_later(p, q, i, j));
            }
            assert forall|p: int, q: int|
                0 <= p < q < fleet.len() && (p > a || (p == a && q >= b + 1)) implies (
            #[trigger] advice_to(fleet, p, q, j) is None || advice_to(fleet, p, q, j) == Some(
                y,
            )) by {
                assert(looked_at_later(p, q, i, j));
            }
            lemma_advice_stands(next, fleet, i, x, a, b + 1);
            lemma_advice_stands(next, fleet, j, y, a, b + 1);
        } else {
            lemma_pair_stands(next, fleet, i, j, x, y, a, b + 1);
        }
    }
}

/// The resolution advisory of a pair. Where two aircraft that both fly
/// above the floor face each other within the resolution threshold, and no
/// pair that the pass looks at later advises either of them anything
/// else, then after the pass the lower of the two is advised to descend and
/// the other to climb.
pub proof fn lemma_resolution_advised(fleet: Seq<AircraftView>, i: int, j: int)
    requires
        0 <= i < j < fleet.len(),
        tcas_gated(fleet[i], fleet[j]),
        faces(fleet[i], fleet[j]),
        faces(fleet[j], fleet[i]),
        in_resolution(fleet[i], fleet[j]),
        forall|p: int, q: int|
            0 <= p < q < fleet.len() && looked_at_later(p, q, i, j) ==> {
                &&& (#[trigger] advice_to(fleet, p, q, i) is None || advice_to(fleet, p, q, i)
                    == advice_to(fleet, i, j, i))
                &&& (advice_to(fleet, p, q, j) is None || advice_to(fleet, p, q, j) == advice_to(
                    fleet,
                    i,
                    j,
                    j,
                ))
            },
    ensures
        fleet[i].altitude < fleet[j].altitude ==> tcas_applied(fleet)[i].tcas == TCAS::Descend
            && tcas_applied(fleet)[j].tcas == TCAS::Climb,
        fleet[i].altitude >= fleet[j].altitude ==> tcas_applied(fleet)[i].tcas == TCAS::Climb
            && tcas_applied(fleet)[j].tcas == TCAS::Descend,
{
    let n = fleet.len() as int;
    let (x, y) = pair_advisory(fleet[i], fleet[j])->0;
    assert(advice_to(fleet, i, j, i) == Some(x));
    assert(advice_to(fleet, i, j, j) == Some(y));
    let start = Seq::new(fleet.len(), |k: int| None::<TCAS>);
    lemma_advisories_through(fleet, index_pairs_of(n));
    assert forall|p: int, q: int|
        0 <= p < q < fleet.len() && looked_at_later(p, q, i, j) implies (#[trigger] advice_to(
        fleet,
        p,
        q,
        j,
    ) is None || advice_to(fleet, p, q, j) == Some(y)) by {
        assert(advice_to(fleet, p, q, i) is None || advice_to(fleet, p, q, i) == advice_to(
            fleet,
            i,
            j,
            i,
        ));
    }
    lemma_pair_stands(start, fleet, i, j, x, y, 0, 1);
}

/// The resolution advisory of two aircraft alone. Where the two fly above
/// the floor and face each other within the resolution threshold, then
/// after the pass the lower is advised to descend and the other to climb.
pub proof fn lemma_resolution_of_two(fleet: Seq<AircraftView>)
    requires
        fleet.len() == 2,
        tcas_gated(fleet[0], fleet[1]),
        faces(fleet[0], fleet[1]),
        faces(fleet[1], fleet[0]),
        in_resolution(fleet[0], fleet[1]),
    ensures
        fleet[0].altitude < fleet[1].altitude ==> tcas_applied(fleet)[0].tcas == TCAS::Descend
            && tcas_applied(fleet)[1].tcas == TCAS::Climb,
        fleet[0].altitude >= fleet[1].altitude ==> tcas_applied(fleet)[0].tcas == TCAS::Climb
            && tcas_applied(fleet)[1].tcas == TCAS::Descend,
{
    lemma_resolution_advised(fleet, 0, 1);
}

} // verus!
