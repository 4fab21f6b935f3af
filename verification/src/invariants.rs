//! What holds of the engine after every tick.

use vstd::prelude::*;

use crate::aircraft::{AircraftStateView, AircraftView, TaxiingState};
use crate::approach::{approach_fleet, with_spacing};
use crate::conflicts::{conflict_settled, in_conflict};
use crate::effects::lemma_parked_segment;
use crate::engine::{Engine, EngineConfig, EventView};
use crate::events::{touched_down, EventKindView, Outcome};
use crate::gates::{board_matches, gate_free, occupies, row_matches, rows_match};
use crate::names::Name;
use crate::ticking::{after_effects, aircraft_ticked, ticked, ticked_with};
use crate::world::World;

verus! {

/// Whether no parked aircraft of a fleet is in a segment of taxiing out,
/// taking off, flying, approaching or landing.
pub open spec fn parked_in_place(fleet: Seq<AircraftView>) -> bool {
    forall|k: int|
        0 <= k < fleet.len() && (#[trigger] fleet[k]).state is Parked
            ==> fleet[k].segment.allows_parked()
}

/// What a tick does to an aircraft by itself leaves a parked aircraft in a
/// segment in which it can be parked.
pub proof fn lemma_ticked_parked(
    a: AircraftView,
    inbound: Seq<EventView>,
    world: &World,
    ticks_per_second: int,
    tick: usize,
    result: Outcome,
)
    requires
        aircraft_ticked(a, inbound, world, ticks_per_second, tick, result),
        result.aircraft.state is Parked,
    ensures
        result.aircraft.segment.allows_parked(),
{
    let events = choose|events: Outcome| #[trigger]
        crate::ticking::after_events(a, inbound, world, inbound.len() as int, events) && result
            == after_effects(events, world, ticks_per_second, tick);
    let taxiing = events.aircraft.taxiing_updated();
    let landing = taxiing.aircraft.landing_updated();
    let flying = landing.aircraft.flying_updated();
    let moved = flying.aircraft.toward_targets(ticks_per_second).moved_on(
        ticks_per_second,
    ).in_airspace_of(world);
    assert(result.aircraft == moved.segment_updated(tick).aircraft);
    assert(moved.state is Parked) by {
        reveal(AircraftView::segment_updated);
    }
    lemma_parked_segment(moved, tick);
}

/// After every tick no aircraft is at once parked and in a segment of
/// taxiing out, taking off, flying, approaching or landing.
pub proof fn lemma_parked_after_tick(pre: &Engine, post: &Engine, returned: Seq<EventView>)
    requires
        ticked(pre, post, returned),
    ensures
        parked_in_place(post.game@),
{
    let results = choose|results: Seq<Outcome>| #[trigger]
        ticked_with(pre, post, returned, results);
    let world = &pre.world;
    let updated = results.map_values(|o: Outcome| o.aircraft);
    let spaced = approach_fleet(updated, world);
    assert forall|k: int| 0 <= k < post.game@.len() && (#[trigger] post.game@[k]).state
        is Parked implies post.game@[k].segment.allows_parked() by {
        let r = results[k];
        assert(updated[k] == r.aircraft);
        assert(spaced[k] == with_spacing(updated, world, k) || spaced[k] == updated[k]);
        if pre.config == EngineConfig::Full {
            assert(post.game@[k] == conflict_settled(spaced[k], in_conflict(spaced, world, k)));
        }
        assert(r.aircraft.state is Parked);
        assert(post.game@[k].segment == r.aircraft.segment);
        let advised = if pre.config == EngineConfig::Full {
            crate::tcas::tcas_applied(pre.game@)
        } else {
            pre.game@
        };
        lemma_ticked_parked(
            advised[k],
            crate::engine::events_view(pre.events@),
            world,
            pre.tick_rate_tps as int,
            pre.tick_counter,
            r,
        );
    }
}

/// Two fleets of which each aircraft takes up the same gates leave the
/// same gates free.
proof fn lemma_gate_free_same(one: Seq<AircraftView>, other: Seq<AircraftView>, gate: Name)
    requires
        one.len() == other.len(),
        forall|k: int|
            0 <= k < one.len() ==> occupies(#[trigger] one[k], gate) == occupies(other[k], gate),
    ensures
        gate_free(one, gate) == gate_free(other, gate),
{
    if gate_free(one, gate) {
        assert forall|k: int| 0 <= k < other.len() implies !occupies(#[trigger] other[k], gate) by {
            assert(!occupies(one[k], gate));
        }
    }
    if gate_free(other, gate) {
        assert forall|k: int| 0 <= k < one.len() implies !occupies(#[trigger] one[k], gate) by {
            assert(!occupies(other[k], gate));
        }
    }
}

/// After every tick the board of gates says of each gate whether it is
/// free: a gate is free exactly when no aircraft is parked at it and none
/// has it, as a gate, where it stands on the ground or on its taxi route.
pub proof fn lemma_gates_after_tick(pre: &Engine, post: &Engine, returned: Seq<EventView>)
    requires
        ticked(pre, post, returned),
    ensures
        board_matches(post.gates@, &post.world, post.game@),
{
    let results = choose|results: Seq<Outcome>| #[trigger]
        ticked_with(pre, post, returned, results);
    let world = &pre.world;
    let updated = results.map_values(|o: Outcome| o.aircraft);
    let spaced = approach_fleet(updated, world);
    let last = post.game@;
    assert forall|k: int, gate: Name| 0 <= k < updated.len() implies #[trigger] occupies(
        updated[k],
        gate,
    ) == occupies(last[k], gate) by {
        assert(spaced[k] == with_spacing(updated, world, k) || spaced[k] == updated[k]);
        if pre.config == EngineConfig::Full {
            assert(last[k] == conflict_settled(spaced[k], in_conflict(spaced, world, k)));
        }
    }
    let board = post.gates@;
    assert forall|a: int| 0 <= a < board.len() implies rows_match(
        (#[trigger] board[a])@,
        &world.airports@[a],
        last,
    ) by {
        let airport = &world.airports@[a];
        let rows = board[a]@;
        assert(rows_match(rows, airport, updated));
        assert forall|t: int| 0 <= t < rows.len() implies row_matches(
            (#[trigger] rows[t])@,
            &airport.terminals@[t],
            last,
        ) by {
            let row = rows[t]@;
            let terminal = &airport.terminals@[t];
            assert(row_matches(row, terminal, updated));
            assert forall|g: int| 0 <= g < row.len() implies #[trigger] row[g] == gate_free(
                last,
                terminal.gates@[g].id,
            ) by {
                lemma_gate_free_same(updated, last, terminal.gates@[g].id);
            }
        }
    }
}

/// Whether an event is addressed to the named aircraft.
pub open spec fn addressed_to(event: EventView, id: Name) -> bool {
    event matches EventView::Aircraft(e) && e.id == id
}

/// Whether the inbound event `i` is a touchdown of the named aircraft that
/// reaches it while it lands and is the last word to it in this tick: no
/// event before it breaks the landing off or ends it, and no event after
/// it is addressed to the aircraft.
pub open spec fn touchdown_is_last(inbound: Seq<EventView>, id: Name, i: int) -> bool {
    &&& 0 <= i < inbound.len()
    &&& inbound[i] == EventView::Aircraft(
        crate::events::AircraftEventView { id, kind: EventKindView::Touchdown },
    )
    &&& forall|j: int| i < j < inbound.len() ==> !addressed_to(#[trigger] inbound[j], id)
    &&& forall|j: int|
        0 <= j < i ==> !(#[trigger] inbound[j] matches EventView::Aircraft(e) && e.id == id && (
        e.kind is GoAround || e.kind is Touchdown))
}

/// Whether no inbound event before the event `i` clears the named aircraft
/// to land, on another runway perhaps.
pub open spec fn no_land_before(inbound: Seq<EventView>, id: Name, i: int) -> bool {
    forall|j: int|
        0 <= j < i ==> !(#[trigger] inbound[j] matches EventView::Aircraft(e) && e.id == id
            && e.kind is Land)
}

/// Whether an aircraft rolls out after its touchdown: it taxis at a runway,
/// with no route and with traffic stops overridden.
pub open spec fn rolls_out(a: AircraftView) -> bool {
    a.state matches AircraftStateView::Taxiing { current, waypoints, state } && state
        == TaxiingState::Override && current.kind == crate::pathfinder::NodeKind::Runway
        && waypoints.len() == 0
}

/// An event that neither breaks a landing off nor ends it leaves a landing
/// aircraft landing.
proof fn lemma_step_keeps_landing(before: AircraftView, event: EventView, world: &World, step: Outcome)
    requires
        before.state is Landing,
        crate::ticking::event_step(before, event, world, step),
        !(event matches EventView::Aircraft(e) && e.id == before.id && (e.kind is GoAround
            || e.kind is Touchdown)),
    ensures
        step.aircraft.state is Landing,
        step.aircraft.id == before.id,
        !(event matches EventView::Aircraft(e) && e.id == before.id && e.kind is Land)
            ==> step.aircraft.state->runway == before.state->runway,
{
    reveal(AircraftView::event_outcome);
}

/// A landing aircraft still lands after the first inbound events where
/// none of them breaks the landing off or ends it.
proof fn lemma_keeps_landing(
    a: AircraftView,
    inbound: Seq<EventView>,
    world: &World,
    upto: int,
    result: Outcome,
)
    requires
        a.state is Landing,
        0 <= upto <= inbound.len(),
        crate::ticking::after_events(a, inbound, world, upto, result),
        forall|j: int|
            0 <= j < upto ==> !(#[trigger] inbound[j] matches EventView::Aircraft(e) && e.id == a.id
                && (e.kind is GoAround || e.kind is Touchdown)),
    ensures
        result.aircraft.state is Landing,
        result.aircraft.id == a.id,
        no_land_before(inbound, a.id, upto) ==> result.aircraft.state->runway == a.state->runway,
    decreases upto,
{
    reveal_with_fuel(crate::ticking::after_events, 2);
    if upto > 0 {
        let (before, step) = choose|before: Outcome, step: Outcome|
            #![trigger crate::ticking::event_step(before.aircraft, inbound[upto - 1], world, step)]
            {
                &&& crate::ticking::after_events(a, inbound, world, upto - 1, before)
                &&& crate::ticking::event_step(before.aircraft, inbound[upto - 1], world, step)
                &&& result == Outcome {
                    aircraft: step.aircraft,
                    emitted: before.emitted + step.emitted,
                }
            };
        lemma_keeps_landing(a, inbound, world, upto - 1, before);
        assert(!(inbound[upto - 1] matches EventView::Aircraft(e) && e.id == a.id && (e.kind
            is GoAround || e.kind is Touchdown)));
        lemma_step_keeps_landing(before.aircraft, inbound[upto - 1], world, step);
        if no_land_before(inbound, a.id, upto) {
            assert(no_land_before(inbound, a.id, upto - 1));
            assert(!(inbound[upto - 1] matches EventView::Aircraft(e) && e.id == a.id && e.kind
                is Land));
        }
    }
}

/// After a touchdown that is the last word to a landing aircraft, and after
/// any further inbound events, the aircraft rolls out.
proof fn lemma_touchdown_stands(
    a: AircraftView,
    inbound: Seq<EventView>,
    world: &World,
    i: int,
    upto: int,
    result: Outcome,
)
    requires
        a.state is Landing,
        touchdown_is_last(inbound, a.id, i),
        i < upto <= inbound.len(),
        crate::ticking::after_events(a, inbound, world, upto, result),
    ensures
        rolls_out(result.aircraft),
        result.aircraft.id == a.id,
        no_land_before(inbound, a.id, i) ==> result.aircraft.state->current.name
            == a.state->runway.id,
    decreases upto,
{
    reveal_with_fuel(crate::ticking::after_events, 2);
    let (before, step) = choose|before: Outcome, step: Outcome|
        #![trigger crate::ticking::event_step(before.aircraft, inbound[upto - 1], world, step)]
        {
            &&& crate::ticking::after_events(a, inbound, world, upto - 1, before)
            &&& crate::ticking::event_step(before.aircraft, inbound[upto - 1], world, step)
            &&& result == Outcome { aircraft: step.aircraft, emitted: before.emitted + step.emitted }
        };
    if upto == i + 1 {
        lemma_keeps_landing(a, inbound, world, i, before);
        reveal(AircraftView::event_outcome);
        assert(step.aircraft == touched_down(before.aircraft));
    } else {
        lemma_touchdown_stands(a, inbound, world, i, upto - 1, before);
        assert(!addressed_to(inbound[upto - 1], a.id));
    }
}

/// A landing aircraft whose touchdown is the last word to it in a tick
/// rolls out after what the tick does to it by itself.
pub proof fn lemma_touchdown_taxis(
    a: AircraftView,
    inbound: Seq<EventView>,
    world: &World,
    ticks_per_second: int,
    tick: usize,
    i: int,
    result: Outcome,
)
    requires
        a.state is Landing,
        touchdown_is_last(inbound, a.id, i),
        aircraft_ticked(a, inbound, world, ticks_per_second, tick, result),
    ensures
        rolls_out(result.aircraft),
        result.aircraft.id == a.id,
        no_land_before(inbound, a.id, i) ==> result.aircraft.state->current.name
            == a.state->runway.id,
{
    let events = choose|events: Outcome| #[trigger]
        crate::ticking::after_events(a, inbound, world, inbound.len() as int, events) && result
            == after_effects(events, world, ticks_per_second, tick);
    lemma_touchdown_stands(a, inbound, world, i, inbound.len() as int, events);
    reveal(AircraftView::taxiing_updated);
    reveal(AircraftView::landing_updated);
    reveal(AircraftView::flying_updated);
    reveal(AircraftView::toward_targets);
    reveal(AircraftView::moved_on);
    reveal(AircraftView::in_airspace_of);
    reveal(AircraftView::segment_updated);
}

/// The touchdown after a tick. A landing aircraft whose touchdown is the
/// last word to it in a tick taxis after that tick, at a runway: with
/// traffic stops overridden where collision checks are off or it has
/// traffic ahead, armed where collision checks are on and it has none. The
/// runway is the one that it landed on before the tick, where no event of
/// the tick cleared it to land.
pub proof fn lemma_touchdown_after_tick(
    pre: &Engine,
    post: &Engine,
    returned: Seq<EventView>,
    results: Seq<Outcome>,
    k: int,
    i: int,
)
    requires
        ticked_with(pre, post, returned, results),
        0 <= k < pre.game@.len(),
        pre.game@[k].state is Landing,
        touchdown_is_last(crate::engine::events_view(pre.events@), pre.game@[k].id, i),
    ensures
        post.game@[k].state matches AircraftStateView::Taxiing { current, state, .. }
            && current.kind == crate::pathfinder::NodeKind::Runway && state == if pre.config
            == EngineConfig::Full && !in_conflict(
            approach_fleet(results.map_values(|o: Outcome| o.aircraft), &pre.world),
            &pre.world,
            k,
        ) {
            TaxiingState::Armed
        } else {
            TaxiingState::Override
        },
        no_land_before(crate::engine::events_view(pre.events@), pre.game@[k].id, i)
            ==> post.game@[k].state->current.name == pre.game@[k].state->runway.id,
{
    let world = &pre.world;
    let updated = results.map_values(|o: Outcome| o.aircraft);
    let spaced = approach_fleet(updated, world);
    let advised = if pre.config == EngineConfig::Full {
        crate::tcas::tcas_applied(pre.game@)
    } else {
        pre.game@
    };
    assert(advised[k].state == pre.game@[k].state && advised[k].id == pre.game@[k].id);
    assert(advised[k].state->runway == pre.game@[k].state->runway);
    assert(updated[k] == results[k].aircraft);
    assert(spaced[k] == with_spacing(updated, world, k) || spaced[k] == updated[k]);
    lemma_touchdown_taxis(
        advised[k],
        crate::engine::events_view(pre.events@),
        world,
        pre.tick_rate_tps as int,
        pre.tick_counter,
        i,
        results[k],
    );
    if pre.config == EngineConfig::Full {
        assert(post.game@[k] == conflict_settled(spaced[k], in_conflict(spaced, world, k)));
    } else {
        assert(post.game@[k] == spaced[k]);
    }
}

} // verus!
