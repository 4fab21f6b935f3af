//! What one tick does to one aircraft, and what a tick of the engine is.

use vstd::prelude::*;

use crate::aircraft::{Aircraft, AircraftView};
use crate::approach::{approach_events, approach_fleet};
use crate::conflicts::{conflict_notices, conflicts_settled};
use crate::engine::{
    addressed, events_view, Engine, EngineConfig, EngineError, Event, EventView,
};
use crate::events::{copy_events, handle_aircraft_event, EventKindView, Outcome};
use crate::gates::board_matches;
use crate::invariants::{lemma_gates_after_tick, lemma_parked_after_tick, parked_in_place};
use crate::ground::ground_events;
use crate::tcas::{fleet_advisories, tcas_applied, tcas_callouts};
use crate::world::{fleet_wf, World};

verus! {

/// Whether `step` is what one inbound event does to an aircraft that is
/// `before`: an event addressed to the aircraft is applied to it; any
/// other event does nothing.
pub open spec fn event_step(before: AircraftView, event: EventView, world: &World, step: Outcome) -> bool {
    match event {
        EventView::Aircraft(event) => if event.id == before.id {
            before.event_outcome(event.kind, world, step)
        } else {
            step == Outcome::unchanged(before)
        },
        EventView::UiEvent(_) => step == Outcome::unchanged(before),
    }
}

/// Whether `result` is what the first `upto` inbound events do to an
/// aircraft: each event is applied in order, and what the aircraft sends
/// out adds up.
pub open spec fn after_events(
    a: AircraftView,
    inbound: Seq<EventView>,
    world: &World,
    upto: int,
    result: Outcome,
) -> bool
    decreases upto,
{
    if upto <= 0 {
        result == Outcome::unchanged(a)
    } else {
        exists|before: Outcome, step: Outcome|
            #![trigger event_step(before.aircraft, inbound[upto - 1], world, step)]
            {
                &&& after_events(a, inbound, world, upto - 1, before)
                &&& event_step(before.aircraft, inbound[upto - 1], world, step)
                &&& result == Outcome {
                    aircraft: step.aircraft,
                    emitted: before.emitted + step.emitted,
                }
            }
    }
}

/// What the effects of a tick do to an aircraft after its events: it
/// follows its taxi route, its landing and its plan, moves toward its
/// targets, moves on, finds its airspace and its segment; and what it sends
/// out adds up.
pub open spec fn after_effects(
    events: Outcome,
    world: &World,
    ticks_per_second: int,
    tick: usize,
) -> Outcome {
    let taxiing = events.aircraft.taxiing_updated();
    let landing = taxiing.aircraft.landing_updated();
    let flying = landing.aircraft.flying_updated();
    let moved = flying.aircraft.toward_targets(ticks_per_second).moved_on(
        ticks_per_second,
    ).in_airspace_of(world);
    let segment = moved.segment_updated(tick);
    Outcome {
        aircraft: segment.aircraft,
        emitted: events.emitted + taxiing.emitted + landing.emitted + flying.emitted
            + segment.emitted,
    }
}

/// Whether `result` is what a tick does to an aircraft by itself.
pub open spec fn aircraft_ticked(
    a: AircraftView,
    inbound: Seq<EventView>,
    world: &World,
    ticks_per_second: int,
    tick: usize,
    result: Outcome,
) -> bool {
    exists|events: Outcome| #[trigger]
        after_events(a, inbound, world, inbound.len() as int, events) && result == after_effects(
            events,
            world,
            ticks_per_second,
            tick,
        )
}

/// What the first `upto` aircraft send out, in their order.
pub open spec fn emitted_by(fleet: Seq<AircraftView>, results: Seq<Outcome>, upto: int) -> Seq<
    EventView,
>
    decreases upto,
{
    if upto <= 0 {
        Seq::empty()
    } else {
        emitted_by(fleet, results, upto - 1) + addressed(
            fleet[upto - 1].id,
            results[upto - 1].emitted,
        )
    }
}

/// The tick counter after a tick: one more, and zero after the greatest.
pub open spec fn next_tick(counter: usize) -> usize {
    if counter == usize::MAX {
        0
    } else {
        (counter + 1) as usize
    }
}

/// Whether `post` is the engine `pre` after a tick that returned
/// `returned` and in which `results` is what it did to each aircraft by
/// itself. In order: the collision avoidance pass, unless collision checks
/// are off; for each aircraft its inbound events and its effects; the
/// gates; the approach controller; the ground controller; the ground
/// conflict pass, unless collision checks are off. What each of them sends
/// out, in that order, is returned and is inbound at the next tick.
pub open spec fn ticked_with(
    pre: &Engine,
    post: &Engine,
    returned: Seq<EventView>,
    results: Seq<Outcome>,
) -> bool {
    let world = &pre.world;
    let n = pre.game@.len() as int;
    let checks = pre.config == EngineConfig::Full;
    let advised = if checks {
        tcas_applied(pre.game@)
    } else {
        pre.game@
    };
    let callouts = if checks {
        tcas_callouts(pre.game@, fleet_advisories(pre.game@), n)
    } else {
        Seq::empty()
    };
    let updated = results.map_values(|o: Outcome| o.aircraft);
    let spaced = approach_fleet(updated, world);
    &&& results.len() == n
    &&& forall|k: int|
        0 <= k < n ==> aircraft_ticked(
            advised[k],
            events_view(pre.events@),
            world,
            pre.tick_rate_tps as int,
            pre.tick_counter,
            #[trigger] results[k],
        )
    &&& board_matches(post.gates@, world, updated)
    &&& post.game@ == if checks {
        conflicts_settled(spaced, world)
    } else {
        spaced
    }
    &&& returned == callouts + emitted_by(advised, results, n) + approach_events(updated, world)
        + ground_events(spaced, world, post.gates@, 0) + if checks {
        conflict_notices(spaced, world, n)
    } else {
        Seq::empty()
    }
    &&& events_view(post.events@) == returned
    &&& post.tick_counter == next_tick(pre.tick_counter)
    &&& post.airports == pre.airports
    &&& post.config == pre.config
    &&& post.world == pre.world
    &&& post.tick_rate_tps == pre.tick_rate_tps
    &&& post.paused == pre.paused
}

/// Whether `post` is the engine `pre` after a tick that returned `returned`.
pub open spec fn ticked(pre: &Engine, post: &Engine, returned: Seq<EventView>) -> bool {
    exists|results: Seq<Outcome>| #[trigger] ticked_with(pre, post, returned, results)
}

/// One more inbound event applied.
pub proof fn lemma_after_events_step(
    a: AircraftView,
    inbound: Seq<EventView>,
    world: &World,
    upto: int,
    before: Outcome,
    step: Outcome,
)
    requires
        upto > 0,
        after_events(a, inbound, world, upto - 1, before),
        event_step(before.aircraft, inbound[upto - 1], world, step),
    ensures
        after_events(
            a,
            inbound,
            world,
            upto,
            Outcome { aircraft: step.aircraft, emitted: before.emitted + step.emitted },
        ),
{
    let result = Outcome { aircraft: step.aircraft, emitted: before.emitted + step.emitted };
    reveal_with_fuel(after_events, 2);
    assert(exists|b: Outcome, s: Outcome|
        #![trigger event_step(b.aircraft, inbound[upto - 1], world, s)]
        {
            &&& after_events(a, inbound, world, upto - 1, b)
            &&& event_step(b.aircraft, inbound[upto - 1], world, s)
            &&& result == Outcome { aircraft: s.aircraft, emitted: b.emitted + s.emitted }
        });
}

/// Events to one aircraft, one list after another, are the events of the
/// two lists joined.
pub proof fn lemma_addressed_add(id: crate::names::Name, a: Seq<EventKindView>, b: Seq<EventKindView>)
    ensures
        addressed(id, a) + addressed(id, b) == addressed(id, a + b),
{
    assert(addressed(id, a) + addressed(id, b) =~= addressed(id, a + b));
}

/// Applies the inbound events that are addressed to an aircraft.
fn apply_inbound(
    aircraft: &mut Aircraft,
    inbound: &Vec<Event>,
    events: &mut Vec<Event>,
    world: &World,
    rng: &mut turborand::rng::Rng,
) -> (result: Ghost<Outcome>)
    requires
        old(aircraft)@.wf(),
        world.wf(),
    ensures
        final(aircraft)@.wf(),
        final(aircraft)@.id == old(aircraft)@.id,
        after_events(
            old(aircraft)@,
            events_view(inbound@),
            world,
            inbound@.len() as int,
            result@,
        ),
        final(aircraft)@ == result@.aircraft,
        events_view(final(events)@) == events_view(old(events)@) + addressed(
            old(aircraft).id,
            result@.emitted,
        ),
{
    let id = aircraft.id;
    let ghost a = aircraft@;
    let ghost start = events_view(events@);
    let ghost incoming = events_view(inbound@);
    let ghost mut so_far = Outcome::unchanged(a);
    assert(start =~= start + addressed(id, so_far.emitted));
    let mut e: usize = 0;
    while e < inbound.len()
        invariant
            e <= inbound@.len(),
            incoming == events_view(inbound@),
            world.wf(),
            aircraft@.wf(),
            aircraft@.id == id,
            a.id == id,
            after_events(a, incoming, world, e as int, so_far),
            aircraft@ == so_far.aircraft,
            events_view(events@) == start + addressed(id, so_far.emitted),
        decreases inbound.len() - e,
    {
        let ghost before = so_far;
        let ghost sent = events_view(events@);
        assert(incoming[e as int] == inbound@[e as int]@);
        let mut applied = false;
        match &inbound[e] {
            Event::Aircraft(event) => {
                if event.id == id {
                    handle_aircraft_event(aircraft, &event.kind, events, world, rng);
                    applied = true;
                    proof {
                        let step = choose|step: Outcome|
                            {
                                &&& #[trigger] before.aircraft.event_outcome(
                                    event.kind@,
                                    world,
                                    step,
                                )
                                &&& aircraft@ == step.aircraft
                                &&& events_view(events@) == sent + addressed(id, step.emitted)
                            };
                        so_far = Outcome {
                            aircraft: step.aircraft,
                            emitted: before.emitted + step.emitted,
                        };
                        lemma_addressed_add(id, before.emitted, step.emitted);
                        assert(start + addressed(id, before.emitted) + addressed(id, step.emitted)
                            =~= start + (addressed(id, before.emitted) + addressed(
                            id,
                            step.emitted,
                        )));
                        lemma_after_events_step(a, incoming, world, e + 1, before, step);
                    }
                }
            },
            Event::UiEvent(_) => {},
        }
        proof {
            if !applied {
                let step = Outcome::unchanged(before.aircraft);
                so_far = Outcome {
                    aircraft: step.aircraft,
                    emitted: before.emitted + step.emitted,
                };
                assert(so_far.emitted =~= before.emitted);
                lemma_after_events_step(a, incoming, world, e + 1, before, step);
            }
        }
        e = e + 1;
    }
    Ghost(so_far)
}

/// Does to one aircraft what a tick does to an aircraft by itself.
pub(crate) fn tick_aircraft(
    aircraft: &mut Aircraft,
    inbound: &Vec<Event>,
    events: &mut Vec<Event>,
    world: &World,
    rng: &mut turborand::rng::Rng,
    ticks_per_second: usize,
    tick: usize,
) -> (result: Ghost<Outcome>)
    requires
        old(aircraft)@.wf(),
        world.wf(),
        0 < ticks_per_second,
    ensures
        final(aircraft)@.wf(),
        final(aircraft)@.id == old(aircraft)@.id,
        aircraft_ticked(
            old(aircraft)@,
            events_view(inbound@),
            world,
            ticks_per_second as int,
            tick,
            result@,
        ),
        final(aircraft)@ == result@.aircraft,
        events_view(final(events)@) == events_view(old(events)@) + addressed(
            old(aircraft).id,
            result@.emitted,
        ),
{
    let id = aircraft.id;
    let ghost start = events_view(events@);
    let applied = apply_inbound(aircraft, inbound, events, world, rng);
    let ghost a1 = aircraft@;
    aircraft.update_taxiing(events);
    let ghost a2 = aircraft@;
    aircraft.update_landing(events);
    let ghost a3 = aircraft@;
    aircraft.update_flying(events);
    let ghost a4 = aircraft@;
    aircraft.update_from_targets(ticks_per_second);
    aircraft.update_position(ticks_per_second);
    aircraft.update_airspace(world);
    let ghost a5 = aircraft@;
    aircraft.update_segment(events, tick);
    let ghost result = after_effects(applied@, world, ticks_per_second as int, tick);
    proof {
        let t = a1.taxiing_updated().emitted;
        let l = a2.landing_updated().emitted;
        let f = a3.flying_updated().emitted;
        let s = a5.segment_updated(tick).emitted;
        assert(a2.id == id && a3.id == id && a4.id == id && a5.id == id);
        assert(events_view(events@) =~= start + addressed(id, applied@.emitted + t + l + f + s));
        assert(after_events(
            old(aircraft)@,
            events_view(inbound@),
            world,
            inbound@.len() as int,
            applied@,
        ));
        assert(events_view(inbound@).len() == inbound@.len());
        assert(aircraft_ticked(
            old(aircraft)@,
            events_view(inbound@),
            world,
            ticks_per_second as int,
            tick,
            result,
        ));
    }
    Ghost(result)
}

/// What the first aircraft send out does not depend on the later results.
proof fn lemma_emitted_by_prefix(
    fleet: Seq<AircraftView>,
    results: Seq<Outcome>,
    more: Seq<Outcome>,
    upto: int,
)
    requires
        0 <= upto <= results.len() <= more.len(),
        forall|i: int| 0 <= i < results.len() ==> results[i] == more[i],
    ensures
        emitted_by(fleet, results, upto) == emitted_by(fleet, more, upto),
    decreases upto,
{
    if upto > 0 {
        lemma_emitted_by_prefix(fleet, results, more, upto - 1);
    }
}

impl Engine {
    /// Advances the simulation by one tick and returns what was sent out.
    /// A paused engine does nothing and returns no event. An engine without
    /// loaded airports is not ready and does nothing.
    pub fn tick(&mut self) -> (r: Result<Vec<Event>, EngineError>)
        requires
            old(self).wf(),
        ensures
            final(self).wf(),
            old(self).paused ==> *final(self) == *old(self) && (r matches Ok(events)
                && events@.len() == 0),
            !old(self).paused && old(self).airports@.len() == 0 ==> *final(self) == *old(self) && r
                == Err::<Vec<Event>, EngineError>(EngineError::NotReady),
            !old(self).paused && old(self).airports@.len() > 0 ==> (r matches Ok(events) && ticked(
                old(self),
                final(self),
                events_view(events@),
            )),
            !old(self).paused && old(self).airports@.len() > 0 ==> parked_in_place(
                final(self).game@,
            ) && board_matches(final(self).gates@, &final(self).world, final(self).game@),
            forall|k: int|
                0 <= k < final(self).game@.len() ==> {
                    let a = #[trigger] final(self).game@[k];
                    &&& 0 <= a.heading < 360_000
                    &&& -a.minima.max_deviation_angle <= a.flight_plan.course_offset
                        <= a.minima.max_deviation_angle
                },
    {
        if self.paused {
            return Ok(Vec::new());
        }
        if self.airports.len() == 0 {
            return Err(EngineError::NotReady);
        }
        let ghost pre = *self;
        let ghost inbound = events_view(self.events@);
        let checks = self.config.run_collisions();
        let mut events: Vec<Event> = if checks {
            self.handle_tcas()
        } else {
            Vec::new()
        };
        let ghost advised = self.game@;
        let ghost callouts = events_view(events@);
        assert(callouts =~= if checks {
            tcas_callouts(pre.game@, fleet_advisories(pre.game@), pre.game@.len() as int)
        } else {
            Seq::empty()
        });
        let n = self.game.aircraft.len();
        let rate = self.tick_rate_tps;
        let tick = self.tick_counter;
        let ghost mut results: Seq<Outcome> = Seq::empty();
        let mut k: usize = 0;
        assert(callouts =~= callouts + emitted_by(advised, results, 0));
        while k < n
            invariant
                k <= n == advised.len() == self.game.aircraft@.len(),
                results.len() == k,
                self.world.wf(),
                self.world == pre.world,
                self.airports == pre.airports,
                self.config == pre.config,
                self.events == pre.events,
                self.tick_counter == pre.tick_counter,
                self.tick_rate_tps == pre.tick_rate_tps,
                self.paused == pre.paused,
                inbound == events_view(self.events@),
                rate == pre.tick_rate_tps,
                tick == pre.tick_counter,
                0 < rate,
                fleet_wf(advised),
                forall|i: int|
                    0 <= i < k ==> self.game@[i] == results[i].aircraft && self.game@[i].wf()
                        && aircraft_ticked(
                        advised[i],
                        inbound,
                        &self.world,
                        rate as int,
                        tick,
                        #[trigger] results[i],
                    ),
                forall|i: int| k <= i < n ==> self.game@[i] == advised[i],
                events_view(events@) == callouts + emitted_by(advised, results, k as int),
            decreases n - k,
        {
            let ghost before = self.game@;
            let ghost sent = events_view(events@);
            let ghost earlier = results;
            assert(before[k as int] == self.game.aircraft@[k as int]@);
            assert(advised[k as int].wf());
            let result = tick_aircraft(
                &mut self.game.aircraft[k],
                &self.events,
                &mut events,
                &self.world,
                &mut self.rng,
                rate,
                tick,
            );
            proof {
                results = results.push(result@);
                lemma_emitted_by_prefix(advised, earlier, results, k as int);
                assert(events_view(events@) =~= callouts + (emitted_by(advised, results, k as int)
                    + addressed(advised[k as int].id, result@.emitted)));
                assert forall|i: int| 0 <= i < k + 1 implies self.game@[i] == results[i].aircraft
                    && self.game@[i].wf() && aircraft_ticked(
                    advised[i],
                    inbound,
                    &self.world,
                    rate as int,
                    tick,
                    #[trigger] results[i],
                ) by {
                    if i < k {
                        assert(self.game@[i] == before[i]);
                        assert(results[i] == earlier[i]);
                    }
                }
                assert forall|i: int| k + 1 <= i < n implies self.game@[i] == advised[i] by {
                    assert(self.game@[i] == before[i]);
                }
            }
            k = k + 1;
        }
        let ghost updated = results.map_values(|o: Outcome| o.aircraft);
        assert(self.game@ =~= updated);
        self.compute_available_gates();
        self.update_auto_approach(&mut events);
        let ghost spaced = self.game@;
        self.update_auto_ground(&mut events);
        let ghost sent = events_view(events@);
        if checks {
            let mut notices = self.taxi_collisions();
            let ghost told = events_view(notices@);
            events.append(&mut notices);
            assert(events_view(events@) =~= sent + told);
        } else {
            assert(sent =~= sent + Seq::<EventView>::empty());
        }
        self.tick_counter = if self.tick_counter == usize::MAX {
            0
        } else {
            self.tick_counter + 1
        };
        let returned = copy_events(&events);
        self.events = events;
        proof {
            assert(ticked_with(&pre, self, events_view(returned@), results));
            lemma_parked_after_tick(&pre, self, events_view(returned@));
            lemma_gates_after_tick(&pre, self, events_view(returned@));
        }
        Ok(returned)
    }
}

} // verus!
