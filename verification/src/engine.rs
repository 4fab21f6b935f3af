//! The engine: the world, the aircraft, the event buffer and the tick that
//! advances them.

use vstd::prelude::*;

use crate::aircraft::{Aircraft, AircraftView};
use crate::chance::{clone_rng, new_rng, sample_index};
use crate::events::{AircraftEvent, AircraftEventView, EventKindView};
use crate::names::{packed, pow256, Name, NAME_DEFAULT};
use crate::search::{
    first_index, lemma_distinct_bounded, lemma_first_index_absent, lemma_first_index_found,
};
use crate::world::{fleet_wf, Airport, Game, World};

verus! {

/// What the front end asks of the engine.
#[derive(Clone, Copy, Debug, PartialEq, Eq, Structural)]
pub enum UICommand {
    Pause,
}

/// What the engine tells the front end.
#[derive(Clone, Copy, Debug, PartialEq, Eq, PartialOrd, Ord, Hash, Structural)]
pub enum UIEvent {
    Pause,
}

impl From<UICommand> for UIEvent {
    fn from(value: UICommand) -> (r: UIEvent) {
        match value {
            UICommand::Pause => UIEvent::Pause,
        }
    }
}

impl vstd::std_specs::convert::FromSpecImpl<UICommand> for UIEvent {
    open spec fn obeys_from_spec() -> bool {
        true
    }

    open spec fn from_spec(value: UICommand) -> UIEvent {
        match value {
            UICommand::Pause => UIEvent::Pause,
        }
    }
}

/// What passes through the event buffer.
#[derive(Clone, Debug, PartialEq, Eq)]
pub enum Event {
    Aircraft(AircraftEvent),
    UiEvent(UIEvent),
}

/// The mathematical value of an `Event`.
pub enum EventView {
    Aircraft(AircraftEventView),
    UiEvent(UIEvent),
}

impl View for Event {
    type V = EventView;

    open spec fn view(&self) -> EventView {
        match *self {
            Event::Aircraft(e) => EventView::Aircraft(e@),
            Event::UiEvent(e) => EventView::UiEvent(e),
        }
    }
}

impl From<AircraftEvent> for Event {
    fn from(value: AircraftEvent) -> (r: Event) {
        Event::Aircraft(value)
    }
}

impl vstd::std_specs::convert::FromSpecImpl<AircraftEvent> for Event {
    open spec fn obeys_from_spec() -> bool {
        true
    }

    open spec fn from_spec(value: AircraftEvent) -> Event {
        Event::Aircraft(value)
    }
}

/// The values of a list of events.
pub open spec fn events_view(events: Seq<Event>) -> Seq<EventView> {
    events.map_values(|e: Event| e@)
}

/// Events of the given kinds, all addressed to one aircraft.
pub open spec fn addressed(id: Name, kinds: Seq<EventKindView>) -> Seq<EventView> {
    kinds.map_values(|kind: EventKindView| EventView::Aircraft(AircraftEventView { id, kind }))
}

/// How much the engine does in a tick.
#[derive(Clone, Copy, Debug, PartialEq, Eq, Structural)]
pub enum EngineConfig {
    /// Runs no collision checks.
    Minimal,
    /// Runs all collision checks.
    Full,
}

impl Default for EngineConfig {
    fn default() -> (r: EngineConfig)
        ensures
            r == EngineConfig::Full,
    {
        EngineConfig::Full
    }
}

impl EngineConfig {
    /// Whether the collision passes run.
    pub fn run_collisions(&self) -> (r: bool)
        ensures
            r == (*self == EngineConfig::Full),
    {
        match self {
            EngineConfig::Full => true,
            EngineConfig::Minimal => false,
        }
    }

    /// Whether the engine logs what it does.
    pub fn show_logs(&self) -> (r: bool)
        ensures
            r == (*self == EngineConfig::Full),
    {
        match self {
            EngineConfig::Full => true,
            EngineConfig::Minimal => false,
        }
    }
}

/// The number of ticks in a second, unless the engine is told otherwise.
pub const DEFAULT_TICK_RATE_TPS: usize = 15;

/// Why the engine could not tick.
#[derive(Clone, Copy, Debug, PartialEq, Eq, Structural)]
pub enum EngineError {
    /// No airport has been loaded.
    NotReady,
}

/// Which gates are free: for each airport of the world, for each of its
/// terminals, for each gate of that terminal, whether an aircraft can be
/// sent there.
pub type GateBoard = Vec<Vec<Vec<bool>>>;

/// The simulation.
#[derive(Debug)]
pub struct Engine {
    /// The airports that have been loaded.
    pub airports: Vec<Airport>,
    pub config: EngineConfig,
    pub rng: turborand::rng::Rng,
    pub world: World,
    pub game: Game,
    /// The events that the next tick applies.
    pub events: Vec<Event>,
    /// Which gates were free at the end of the last tick.
    pub gates: GateBoard,
    pub tick_counter: usize,
    pub tick_rate_tps: usize,
    /// Whether ticks are suspended.
    pub paused: bool,
}

impl Engine {
    /// The world and every aircraft are sound and a tick has a length: the
    /// number of ticks in a second is not zero.
    pub open spec fn wf(&self) -> bool {
        &&& self.world.wf()
        &&& fleet_wf(self.game@)
        &&& 0 < self.tick_rate_tps
    }

    /// Whether two engines differ at most in their aircraft.
    pub open spec fn same_but_game(&self, other: &Engine) -> bool {
        &&& self.airports == other.airports
        &&& self.config == other.config
        &&& self.rng == other.rng
        &&& self.world == other.world
        &&& self.events == other.events
        &&& self.gates == other.gates
        &&& self.tick_counter == other.tick_counter
        &&& self.tick_rate_tps == other.tick_rate_tps
        &&& self.paused == other.paused
    }

    /// Whether the engine is sound: whether it can tick.
    pub fn is_wf(&self) -> (r: bool)
        ensures
            r == self.wf(),
    {
        if self.tick_rate_tps == 0 {
            return false;
        }
        if !self.world.is_wf() {
            return false;
        }
        let mut k: usize = 0;
        while k < self.game.aircraft.len()
            invariant
                k <= self.game.aircraft@.len(),
                forall|j: int| 0 <= j < k ==> (#[trigger] self.game@[j]).wf(),
            decreases self.game.aircraft.len() - k,
        {
            assert(self.game@[k as int] == self.game.aircraft@[k as int]@);
            if !self.game.aircraft[k].is_wf() {
                return false;
            }
            k = k + 1;
        }
        true
    }

    /// The first of the loaded airports with the given name.
    pub open spec fn loaded_airport(&self, id: Name) -> Option<int> {
        first_index(self.airports@, |a: Airport| a.id == id)
    }

    /// The loaded airport with the given name.
    pub fn airport(&self, id: Name) -> (r: Option<&Airport>)
        ensures
            match self.loaded_airport(id) {
                Some(i) => r == Some(&self.airports@[i]),
                None => r is None,
            },
    {
        let ghost wanted = |a: Airport| a.id == id;
        let mut i: usize = 0;
        while i < self.airports.len()
            invariant
                i <= self.airports@.len(),
                wanted == (|a: Airport| a.id == id),
                forall|j: int| 0 <= j < i ==> !wanted(#[trigger] self.airports@[j]),
            decreases self.airports.len() - i,
        {
            if self.airports[i].id == id {
                proof {
                    lemma_first_index_found(self.airports@, wanted, i as int);
                }
                return Some(&self.airports[i]);
            }
            i = i + 1;
        }
        proof {
            lemma_first_index_absent(self.airports@, wanted);
        }
        None
    }

    /// The loaded airport named "default".
    pub fn default_airport(&self) -> (r: Option<&Airport>)
        ensures
            match self.loaded_airport(Name(NAME_DEFAULT)) {
                Some(i) => r == Some(&self.airports@[i]),
                None => r is None,
            },
    {
        self.airport(Name(NAME_DEFAULT))
    }
}

impl Clone for Engine {
    fn clone(&self) -> (r: Engine)
        ensures
            r.config == self.config,
            r.tick_counter == self.tick_counter,
            r.tick_rate_tps == self.tick_rate_tps,
            r.paused == self.paused,
    {
        Engine {
            airports: self.airports.clone(),
            config: self.config,
            rng: clone_rng(&self.rng),
            world: self.world.clone(),
            game: self.game.clone(),
            events: self.events.clone(),
            gates: self.gates.clone(),
            tick_counter: self.tick_counter,
            tick_rate_tps: self.tick_rate_tps,
            paused: self.paused,
        }
    }
}

impl Default for Engine {
    /// An engine with nothing loaded, all collision checks on, a random
    /// source with a seed of its own, and the usual tick rate.
    fn default() -> (r: Engine)
        ensures
            r.airports@.len() == 0,
            r.config == EngineConfig::Full,
            r.world.airports@.len() == 0,
            r.world.waypoints@.len() == 0,
            r.game@.len() == 0,
            r.events@.len() == 0,
            r.gates@.len() == 0,
            r.tick_counter == 0,
            r.tick_rate_tps == DEFAULT_TICK_RATE_TPS,
            !r.paused,
            r.wf(),
    {
        Engine {
            airports: Vec::new(),
            config: EngineConfig::default(),
            rng: new_rng(),
            world: World::default(),
            game: Game::default(),
            events: Vec::new(),
            gates: Vec::new(),
            tick_counter: 0,
            tick_rate_tps: DEFAULT_TICK_RATE_TPS,
            paused: false,
        }
    }
}

/// Whether an aircraft of the fleet has the given name.
pub open spec fn id_used(fleet: Seq<AircraftView>, id: Name) -> bool {
    exists|k: int| 0 <= k < fleet.len() && (#[trigger] fleet[k]).id == id
}

/// Whether no two aircraft of the fleet have one name.
pub open spec fn ids_distinct(fleet: Seq<AircraftView>) -> bool {
    forall|i: int, j: int|
        0 <= i < j < fleet.len() ==> (#[trigger] fleet[i]).id != (#[trigger] fleet[j]).id
}

fn find_id(game: &Game, id: Name) -> (r: Option<usize>)
    ensures
        r is Some == id_used(game@, id),
        r matches Some(k) ==> k < game@.len() && game@[k as int].id == id,
{
    let mut k: usize = 0;
    while k < game.aircraft.len()
        invariant
            k <= game.aircraft@.len(),
            forall|j: int| 0 <= j < k ==> (#[trigger] game@[j]).id != id,
        decreases game.aircraft.len() - k,
    {
        assert(game@[k as int] == game.aircraft@[k as int]@);
        if game.aircraft[k].id == id {
            return Some(k);
        }
        k = k + 1;
    }
    None
}

/// Whether a byte string is a callsign: three capital letters and four
/// digits.
pub open spec fn is_callsign(text: Seq<u8>) -> bool {
    &&& text.len() == 7
    &&& forall|i: int| 0 <= i < 3 ==> 65 <= #[trigger] text[i] <= 90
    &&& forall|i: int| 3 <= i < 7 ==> 48 <= #[trigger] text[i] <= 57
}

/// A callsign drawn at random.
fn random_callsign(rng: &turborand::rng::Rng) -> (r: Name)
    ensures
        exists|text: Seq<u8>| is_callsign(text) && r.0 == #[trigger] packed(text),
{
    let mut code: u128 = 0;
    let mut i: usize = 0;
    let ghost mut text: Seq<u8> = Seq::empty();
    while i < 7
        invariant
            i <= 7,
            text.len() == i,
            code == packed(text),
            code < pow256(i as nat),
            forall|j: int| 0 <= j < i && j < 3 ==> 65 <= #[trigger] text[j] <= 90,
            forall|j: int| 3 <= j < i ==> 48 <= #[trigger] text[j] <= 57,
        decreases 7 - i,
    {
        let symbol: u8 = if i < 3 {
            match sample_index(rng, 26) {
                Some(letter) => 65 + letter as u8,
                None => 65,
            }
        } else {
            match sample_index(rng, 10) {
                Some(digit) => 48 + digit as u8,
                None => 48,
            }
        };
        assert(pow256((i + 1) as nat) == 256 * pow256(i as nat));
        assert(pow256(i as nat) <= 0x1_00_0000_0000_0000) by {
            reveal_with_fuel(pow256, 8);
        }
        proof {
            let longer = text.push(symbol);
            assert(longer.drop_last() =~= text);
            text = longer;
        }
        code = code * 256 + symbol as u128;
        i = i + 1;
    }
    assert(is_callsign(text));
    Name(code)
}

/// The number of callsigns.
pub const CALLSIGNS: usize = 175_760_000;

/// The callsign with the given place among the callsigns in their order,
/// from "AAA0000" to "ZZZ9999".
pub open spec fn callsign_at(place: int) -> Seq<u8> {
    seq![
        (65 + place / 6_760_000) as u8,
        (65 + (place / 260_000) % 26) as u8,
        (65 + (place / 10_000) % 26) as u8,
        (48 + (place / 1_000) % 10) as u8,
        (48 + (place / 100) % 10) as u8,
        (48 + (place / 10) % 10) as u8,
        (48 + place % 10) as u8,
    ]
}

/// Every place among the callsigns holds a callsign, and two places hold
/// two callsigns.
pub proof fn lemma_callsign_at(a: int, b: int)
    requires
        0 <= a < CALLSIGNS,
        0 <= b < CALLSIGNS,
    ensures
        is_callsign(callsign_at(a)),
        crate::names::nameable(callsign_at(a)),
        a != b ==> packed(callsign_at(a)) != packed(callsign_at(b)),
{
    let x = callsign_at(a);
    let y = callsign_at(b);
    if a != b && packed(x) == packed(y) {
        lemma_callsign_named(b);
        crate::names::lemma_packed_injective(x, y);
        assert(x[0] == y[0] && x[1] == y[1] && x[2] == y[2] && x[3] == y[3] && x[4] == y[4]
            && x[5] == y[5] && x[6] == y[6]);
        lemma_place_of_callsign(a);
        lemma_place_of_callsign(b);
    }
    lemma_callsign_named(a);
}

proof fn lemma_callsign_named(a: int)
    requires
        0 <= a < CALLSIGNS,
    ensures
        is_callsign(callsign_at(a)),
        crate::names::nameable(callsign_at(a)),
{
    let x = callsign_at(a);
    assert(x.len() == 7);
    assert(0 <= a / 6_760_000 < 26);
    assert forall|i: int| 0 <= i < 3 implies 65 <= #[trigger] x[i] <= 90 by {}
    assert forall|i: int| 3 <= i < 7 implies 48 <= #[trigger] x[i] <= 57 by {}
    assert forall|i: int| 0 <= i < x.len() implies x[i] != 0 by {
        if i < 3 {
            assert(65 <= x[i]);
        } else {
            assert(48 <= x[i]);
        }
    }
}

proof fn lemma_place_of_callsign(a: int)
    requires
        0 <= a < CALLSIGNS,
    ensures
        ({
            let x = callsign_at(a);
            a == (x[0] - 65) * 6_760_000 + (x[1] - 65) * 260_000 + (x[2] - 65) * 10_000 + (x[3]
                - 48) * 1_000 + (x[4] - 48) * 100 + (x[5] - 48) * 10 + (x[6] - 48)
        }),
{
    vstd::arithmetic::div_mod::lemma_fundamental_div_mod(a, 6_760_000);
    vstd::arithmetic::div_mod::lemma_breakdown(a, 260_000, 26);
    vstd::arithmetic::div_mod::lemma_breakdown(a, 10_000, 26);
    vstd::arithmetic::div_mod::lemma_breakdown(a, 1_000, 10);
    vstd::arithmetic::div_mod::lemma_breakdown(a, 100, 10);
    vstd::arithmetic::div_mod::lemma_breakdown(a, 10, 10);
    assert(260_000int * 26 == 6_760_000 && 10_000int * 26 == 260_000 && 1_000int * 10 == 10_000
        && 100int * 10 == 1_000 && 10int * 10 == 100);
    let x = callsign_at(a);
    assert(0 <= a / 6_760_000 < 26);
    assert(x[0] - 65 == a / 6_760_000);
    assert(x[1] - 65 == (a / 260_000) % 26);
    assert(x[2] - 65 == (a / 10_000) % 26);
    assert(x[3] - 48 == (a / 1_000) % 10);
    assert(x[4] - 48 == (a / 100) % 10);
    assert(x[5] - 48 == (a / 10) % 10);
    assert(x[6] - 48 == a % 10);
}

/// Whether a name is the first callsign, in the order of the callsigns,
/// that no aircraft of the fleet has.
pub open spec fn is_first_free_callsign(fleet: Seq<AircraftView>, id: Name) -> bool {
    exists|place: int|
        {
            &&& 0 <= place < CALLSIGNS
            &&& id.0 == #[trigger] packed(callsign_at(place))
            &&& !id_used(fleet, id)
            &&& forall|before: int|
                0 <= before < place ==> id_used(
                    fleet,
                    Name(#[trigger] packed(callsign_at(before)) as u128),
                )
        }
}

fn callsign(place: usize) -> (r: Name)
    requires
        place < CALLSIGNS,
    ensures
        r.0 == packed(callsign_at(place as int)),
{
    let mut text: Vec<u8> = Vec::new();
    text.push((65 + place / 6_760_000) as u8);
    text.push((65 + (place / 260_000) % 26) as u8);
    text.push((65 + (place / 10_000) % 26) as u8);
    text.push((48 + (place / 1_000) % 10) as u8);
    text.push((48 + (place / 100) % 10) as u8);
    text.push((48 + (place / 10) % 10) as u8);
    text.push((48 + place % 10) as u8);
    proof {
        assert(text@ =~= callsign_at(place as int));
        lemma_callsign_named(place as int);
    }
    match Name::from_bytes(text.as_slice()) {
        Some(name) => name,
        None => Name(0),
    }
}

/// The first callsign that no aircraft of the fleet has; none where the
/// fleet has them all.
pub fn free_callsign(game: &Game) -> (r: Option<Name>)
    ensures
        match r {
            Some(id) => is_first_free_callsign(game@, id),
            None => game@.len() >= CALLSIGNS,
        },
{
    let n = game.aircraft.len();
    let mut place: usize = 0;
    let ghost mut owners: Seq<usize> = Seq::empty();
    while place < CALLSIGNS
        invariant
            n == game@.len(),
            place <= CALLSIGNS,
            owners.len() == place <= n,
            forall|j: int|
                0 <= j < owners.len() ==> (#[trigger] owners[j]) < n && game@[owners[j] as int].id.0
                    == packed(callsign_at(j)),
            forall|before: int|
                0 <= before < place ==> id_used(
                    game@,
                    Name(#[trigger] packed(callsign_at(before)) as u128),
                ),
        decreases CALLSIGNS - place,
    {
        let id = callsign(place);
        match find_id(game, id) {
            None => {
                assert(is_first_free_callsign(game@, id));
                return Some(id);
            },
            Some(k) => {
                proof {
                    let longer = owners.push(k);
                    assert forall|a: int, b: int|
                        0 <= a < longer.len() && 0 <= b < longer.len() && a != b implies longer[a]
                        != longer[b] by {
                        lemma_callsign_at(a, b);
                        assert(game@[longer[a] as int].id.0 == packed(callsign_at(a)));
                        assert(game@[longer[b] as int].id.0 == packed(callsign_at(b)));
                    }
                    lemma_distinct_bounded(longer, n as nat);
                    owners = longer;
                    assert(Name(packed(callsign_at(place as int)) as u128) == id);
                }
                place = place + 1;
            },
        }
    }
    None
}

/// Whether a name is the free name with the least code.
pub open spec fn is_least_free(fleet: Seq<AircraftView>, id: Name) -> bool {
    &&& !id_used(fleet, id)
    &&& forall|code: u128| code < id.0 ==> #[trigger] id_used(fleet, Name(code))
}

/// A name that no aircraft of the fleet has: the least code that is free.
pub fn unused_name(game: &Game) -> (r: Name)
    ensures
        is_least_free(game@, r),
{
    let n = game.aircraft.len();
    let mut code: u128 = 0;
    let ghost mut owners: Seq<usize> = Seq::empty();
    loop
        invariant
            n == game@.len(),
            owners.len() == code <= n,
            forall|j: int|
                0 <= j < owners.len() ==> (#[trigger] owners[j]) < n && game@[owners[j] as int].id
                    == Name(j as u128),
            forall|c: u128| c < code ==> #[trigger] id_used(game@, Name(c)),
        decreases n - code,
    {
        match find_id(game, Name(code)) {
            None => {
                return Name(code);
            },
            Some(k) => {
                proof {
                    let longer = owners.push(k);
                    assert forall|a: int, b: int|
                        0 <= a < longer.len() && 0 <= b < longer.len() && a != b implies longer[a]
                        != longer[b] by {
                        assert(game@[longer[a] as int].id == Name(a as u128));
                        assert(game@[longer[b] as int].id == Name(b as u128));
                    }
                    lemma_distinct_bounded(longer, n as nat);
                    owners = longer;
                }
                code = code + 1;
            },
        }
    }
}

impl Engine {
    /// Adds an aircraft to the fleet. Where its name is taken it gets
    /// another that is free: a callsign drawn at random; where sixteen
    /// draws all give a name that is taken, the first callsign that is
    /// free; and only where the fleet has every callsign, the free name
    /// with the least code.
    pub fn add_aircraft(&mut self, aircraft: Aircraft)
        ensures
            final(self).game@.len() == old(self).game@.len() + 1,
            final(self).game@.take(old(self).game@.len() as int) == old(self).game@,
            final(self).game@.last() == (AircraftView {
                id: final(self).game@.last().id,
                ..aircraft@
            }),
            !id_used(old(self).game@, aircraft@.id) ==> final(self).game@.last().id
                == aircraft@.id,
            !id_used(old(self).game@, final(self).game@.last().id),
            id_used(old(self).game@, aircraft@.id) ==> {
                ||| exists|text: Seq<u8>|
                    is_callsign(text) && final(self).game@.last().id.0 == #[trigger] packed(text)
                ||| (old(self).game@.len() >= CALLSIGNS && is_least_free(
                    old(self).game@,
                    final(self).game@.last().id,
                ))
            },
            ids_distinct(old(self).game@) ==> ids_distinct(final(self).game@),
            final(self).airports == old(self).airports,
            final(self).config == old(self).config,
            final(self).world == old(self).world,
            final(self).events == old(self).events,
            final(self).gates == old(self).gates,
            final(self).tick_counter == old(self).tick_counter,
            final(self).tick_rate_tps == old(self).tick_rate_tps,
            final(self).paused == old(self).paused,
    {
        let mut aircraft = aircraft;
        let ghost given = aircraft@;
        let mut draws: usize = 0;
        while draws < 16 && find_id(&self.game, aircraft.id).is_some()
            invariant
                *self == *old(self),
                aircraft@ == (AircraftView { id: aircraft@.id, ..given }),
                !id_used(self.game@, given.id) ==> aircraft@.id == given.id,
                aircraft@.id == given.id || exists|text: Seq<u8>|
                    is_callsign(text) && aircraft@.id.0 == #[trigger] packed(text),
            decreases 16 - draws,
        {
            aircraft.id = random_callsign(&self.rng);
            draws = draws + 1;
        }
        if find_id(&self.game, aircraft.id).is_some() {
            match free_callsign(&self.game) {
                Some(id) => {
                    proof {
                        let place = choose|place: int|
                            0 <= place < CALLSIGNS && id.0 == #[trigger] packed(
                                callsign_at(place),
                            );
                        lemma_callsign_named(place);
                    }
                    aircraft.id = id;
                },
                None => {
                    aircraft.id = unused_name(&self.game);
                },
            }
        }
        let ghost before = self.game@;
        self.game.aircraft.push(aircraft);
        assert(self.game@.take(before.len() as int) =~= before);
        assert(ids_distinct(before) ==> ids_distinct(self.game@)) by {
            if ids_distinct(before) {
                assert forall|i: int, j: int| 0 <= i < j < self.game@.len() implies (
                #[trigger] self.game@[i]).id != (#[trigger] self.game@[j]).id by {
                    assert(self.game@[i] == before[i]);
                    if j < before.len() {
                        assert(self.game@[j] == before[j]);
                    }
                }
            }
        }
    }

    /// Takes a command of the front end: `Pause` suspends the ticks, or
    /// lets them go on where they are suspended. The command is echoed.
    pub fn handle_ui_command(&mut self, command: UICommand) -> (r: UIEvent)
        ensures
            r == UIEvent::Pause,
            *final(self) == (Engine { paused: !old(self).paused, ..*old(self) }),
    {
        match command {
            UICommand::Pause => {
                self.paused = !self.paused;
                UIEvent::Pause
            },
        }
    }

    /// Takes the airports that were loaded.
    pub fn load_assets(&mut self, airports: Vec<Airport>)
        ensures
            *final(self) == (Engine { airports, ..*old(self) }),
    {
        self.airports = airports;
    }
}

} // verus!
