//! Which gates are free.

use vstd::prelude::*;

use crate::aircraft::{Aircraft, AircraftState, AircraftStateView, AircraftView};
use crate::engine::Engine;
use crate::names::Name;
use crate::pathfinder::NodeKind;
use crate::world::{Airport, Game, Terminal, World};

verus! {

/// Whether an aircraft takes up a gate: it is parked at that gate, or taxis
/// and has a gate node of that name where it stands or on its route.
pub open spec fn occupies(a: AircraftView, gate: Name) -> bool {
    match a.state {
        AircraftStateView::Parked { at } => at.name == gate,
        AircraftStateView::Taxiing { current, waypoints, .. } => {
            ||| (current.name == gate && current.kind == NodeKind::Gate)
            ||| exists|i: int|
                0 <= i < waypoints.len() && (#[trigger] waypoints[i]).name == gate
                    && waypoints[i].kind == NodeKind::Gate
        },
        _ => false,
    }
}

/// Whether no aircraft takes up a gate.
pub open spec fn gate_free(fleet: Seq<AircraftView>, gate: Name) -> bool {
    forall|k: int| 0 <= k < fleet.len() ==> !occupies(#[trigger] fleet[k], gate)
}

/// Whether a row of a board says of each gate of a terminal whether it is
/// free.
pub open spec fn row_matches(row: Seq<bool>, terminal: &Terminal, fleet: Seq<AircraftView>) -> bool {
    &&& row.len() == terminal.gates@.len()
    &&& forall|g: int|
        0 <= g < row.len() ==> #[trigger] row[g] == gate_free(fleet, terminal.gates@[g].id)
}

/// Whether the rows of a board say of each gate of an airport whether it
/// is free.
pub open spec fn rows_match(rows: Seq<Vec<bool>>, airport: &Airport, fleet: Seq<AircraftView>) -> bool {
    &&& rows.len() == airport.terminals@.len()
    &&& forall|t: int|
        0 <= t < rows.len() ==> row_matches((#[trigger] rows[t])@, &airport.terminals@[t], fleet)
}

/// Whether a board says of each gate of each airport of the world whether
/// it is free: a gate is free exactly when no aircraft takes it up.
pub open spec fn board_matches(board: Seq<Vec<Vec<bool>>>, world: &World, fleet: Seq<AircraftView>) -> bool {
    &&& board.len() == world.airports@.len()
    &&& forall|a: int|
        0 <= a < board.len() ==> rows_match((#[trigger] board[a])@, &world.airports@[a], fleet)
}

fn occupies_exec(a: &Aircraft, gate: Name) -> (r: bool)
    ensures
        r == occupies(a@, gate),
{
    match &a.state {
        AircraftState::Parked { at } => at.name == gate,
        AircraftState::Taxiing { current, waypoints, .. } => {
            if current.name == gate && current.kind == NodeKind::Gate {
                return true;
            }
            let mut i: usize = 0;
            while i < waypoints.len()
                invariant
                    i <= waypoints@.len(),
                    a@.state is Taxiing,
                    a@.state->waypoints == waypoints@,
                    !(a@.state->current.name == gate && a@.state->current.kind == NodeKind::Gate),
                    forall|j: int|
                        0 <= j < i ==> !((#[trigger] waypoints@[j]).name == gate && waypoints@[j].kind
                            == NodeKind::Gate),
                decreases waypoints.len() - i,
            {
                if waypoints[i].name == gate && waypoints[i].kind == NodeKind::Gate {
                    assert(waypoints@[i as int].name == gate);
                    return true;
                }
                i = i + 1;
            }
            false
        },
        _ => false,
    }
}

fn gate_free_exec(game: &Game, gate: Name) -> (r: bool)
    ensures
        r == gate_free(game@, gate),
{
    let mut k: usize = 0;
    while k < game.aircraft.len()
        invariant
            k <= game.aircraft@.len(),
            forall|j: int| 0 <= j < k ==> !occupies(#[trigger] game@[j], gate),
        decreases game.aircraft.len() - k,
    {
        assert(game@[k as int] == game.aircraft@[k as int]@);
        if occupies_exec(&game.aircraft[k], gate) {
            return false;
        }
        k = k + 1;
    }
    true
}

fn terminal_row(game: &Game, terminal: &Terminal) -> (row: Vec<bool>)
    ensures
        row_matches(row@, terminal, game@),
{
    let mut row: Vec<bool> = Vec::new();
    let mut g: usize = 0;
    while g < terminal.gates.len()
        invariant
            g <= terminal.gates@.len(),
            row@.len() == g,
            forall|h: int|
                0 <= h < g ==> #[trigger] row@[h] == gate_free(game@, terminal.gates@[h].id),
        decreases terminal.gates.len() - g,
    {
        row.push(gate_free_exec(game, terminal.gates[g].id));
        g = g + 1;
    }
    row
}

fn airport_rows(game: &Game, airport: &Airport) -> (rows: Vec<Vec<bool>>)
    ensures
        rows_match(rows@, airport, game@),
{
    let mut rows: Vec<Vec<bool>> = Vec::new();
    let mut t: usize = 0;
    while t < airport.terminals.len()
        invariant
            t <= airport.terminals@.len(),
            rows@.len() == t,
            forall|u: int|
                0 <= u < t ==> row_matches((#[trigger] rows@[u])@, &airport.terminals@[u], game@),
        decreases airport.terminals.len() - t,
    {
        rows.push(terminal_row(game, &airport.terminals[t]));
        t = t + 1;
    }
    rows
}

impl Engine {
    /// Works out anew which gates are free: a gate is free exactly when no
    /// aircraft is parked at it and none has it, as a gate, where it stands
    /// on the ground or on its taxi route.
    pub fn compute_available_gates(&mut self)
        ensures
            board_matches(final(self).gates@, &final(self).world, final(self).game@),
            final(self).airports == old(self).airports,
            final(self).config == old(self).config,
            final(self).rng == old(self).rng,
            final(self).world == old(self).world,
            final(self).game == old(self).game,
            final(self).events == old(self).events,
            final(self).tick_counter == old(self).tick_counter,
            final(self).tick_rate_tps == old(self).tick_rate_tps,
            final(self).paused == old(self).paused,
    {
        let mut board: Vec<Vec<Vec<bool>>> = Vec::new();
        let mut a: usize = 0;
        while a < self.world.airports.len()
            invariant
                *self == *old(self),
                a <= self.world.airports@.len(),
                board@.len() == a,
                forall|b: int|
                    0 <= b < a ==> rows_match(
                        (#[trigger] board@[b])@,
                        &self.world.airports@[b],
                        self.game@,
                    ),
            decreases self.world.airports.len() - a,
        {
            board.push(airport_rows(&self.game, &self.world.airports[a]));
            a = a + 1;
        }
        self.gates = board;
    }
}

} // verus!
