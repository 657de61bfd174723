//! Movement: the rule every step is held to, and the steps the player's
//! keys ask for.

use crate::components::{Coord, PlayerPosition, Position};
use crate::map::{spec_index, TileType};
use crate::state::{turn_after_input, RunState, State};
use crate::world::{clamped, World, WorldView};
use vstd::prelude::*;

verus! {

/// A key the player can press, as far as the game tells keys apart.
#[derive(Clone, Copy, Debug, PartialEq, Eq, Structural)]
pub enum Key {
    Left,
    Right,
    Up,
    Down,
    N,
    R,
    T,
    D,
    H,
    G,
    B,
    M,
    Other,
}

/// The step that a key asks for, if it asks for one: the arrows and, on
/// the Neo layout, `N`, `R`, `T`, `D` go left, down, up and right, and `H`,
/// `G`, `B`, `M` go along the diagonals.
pub open spec fn key_delta(key: Key) -> Option<(int, int)> {
    match key {
        Key::Left | Key::N => Some((-1, 0)),
        Key::Down | Key::R => Some((0, 1)),
        Key::Up | Key::T => Some((0, -1)),
        Key::Right | Key::D => Some((1, 0)),
        Key::H => Some((-1, -1)),
        Key::G => Some((1, -1)),
        Key::B => Some((-1, 1)),
        Key::M => Some((1, 1)),
        Key::Other => None,
    }
}

/// No key was pressed, or the key pressed asks for no step.
pub open spec fn key_asks_nothing(key: Option<Key>) -> bool {
    match key {
        Some(k) => key_delta(k) is None,
        None => true,
    }
}

impl WorldView {
    /// Entity `e` is one the player steers: it carries the player's mark,
    /// stands somewhere and has a viewshed.
    pub open spec fn steered(self, e: int) -> bool {
        &&& 0 <= e < self.count()
        &&& self.players[e]
        &&& self.positions[e] is Some
        &&& self.viewsheds[e] is Some
    }

    /// Entity `o` stands in this world where it stands in `other`, and
    /// has a viewshed here exactly if it has one there.
    pub open spec fn agrees_at(self, other: WorldView, o: int) -> bool {
        &&& self.positions[o] == other.positions[o]
        &&& (self.viewsheds[o] is Some) == (other.viewsheds[o] is Some)
    }

    /// The entities from number `from` on stand in this world where they
    /// stand in `other`.
    pub open spec fn agrees_from(self, other: WorldView, from: int) -> bool {
        forall|o: int| from <= o < self.count() ==> #[trigger] self.agrees_at(other, o)
    }

    /// The world after each of the first `n` entities that the player
    /// steers has tried a step by `(dx, dy)`, lowest number first.
    pub open spec fn players_moved(self, dx: int, dy: int, n: nat) -> WorldView
        decreases n,
    {
        if n == 0 {
            self
        } else {
            let before = self.players_moved(dx, dy, (n - 1) as nat);
            if before.steered(n - 1) {
                before.moved(n - 1, dx, dy)
            } else {
                before
            }
        }
    }

    /// One of the first `n` entities is steered by the player and can
    /// make the step by `(dx, dy)`.
    pub open spec fn a_player_can_move(self, dx: int, dy: int, n: nat) -> bool {
        exists|e: int| 0 <= e < n && self.steered(e) && #[trigger] self.can_move(e, dx, dy)
    }

    /// A step into a wall changes nothing: the entity stays where it is
    /// and its viewshed is not marked dirty.
    pub proof fn lemma_wall_blocks(self, e: int, dx: int, dy: int)
        requires
            0 <= e < self.count(),
            self.positions[e] matches Some(p) && self.tiles[spec_index(
                self.width,
                self.destination(p, dx, dy).x as int,
                self.destination(p, dx, dy).y as int,
            )] == TileType::Wall,
        ensures
            self.moved(e, dx, dy) == self,
    {
    }

    /// A step keeps a world in order, and touches nothing but the entity
    /// that made it and the player's last known place.
    pub proof fn lemma_moved_wf(self, e: int, dx: int, dy: int)
        requires
            self.wf(),
        ensures
            self.moved(e, dx, dy).wf(),
            self.moved(e, dx, dy).count() == self.count(),
            self.moved(e, dx, dy).tiles == self.tiles,
            self.moved(e, dx, dy).players == self.players,
            forall|o: int|
                0 <= o < self.count() && o != e ==> self.moved(e, dx, dy).positions[o]
                    == self.positions[o] && self.moved(e, dx, dy).viewsheds[o]
                    == self.viewsheds[o],
    {
        let after = self.moved(e, dx, dy);
        if self.can_move(e, dx, dy) {
            assert(self.entity_ok(e));
            assert forall|o: int| 0 <= o < after.count() implies #[trigger] after.entity_ok(o) by {
                assert(self.entity_ok(o));
            }
        }
    }
}

impl World {
    /// Tries to move entity `entity` by `(dx, dy)`. The destination is
    /// brought back onto the map; if its tile is wall, or the entity does
    /// not exist or stands nowhere, nothing changes and `false` comes
    /// back. Otherwise the entity is moved as `WorldView::moved` says.
    pub fn try_move_entity(&mut self, entity: usize, dx: i32, dy: i32) -> (moved: bool)
        requires
            old(self).wf(),
        ensures
            final(self).wf(),
            moved == old(self)@.can_move(entity as int, dx as int, dy as int),
            final(self)@ == old(self)@.moved(entity as int, dx as int, dy as int),
            !moved ==> *final(self) == *old(self),
            final(self).map == old(self).map,
    {
        if entity >= self.positions.len() {
            return false;
        }
        let pos = match self.positions[entity] {
            Some(p) => p,
            None => {
                return false;
            },
        };
        proof {
            assert(self@.entity_ok(entity as int));
            self@.lemma_moved_wf(entity as int, dx as int, dy as int);
        }
        let to = Position {
            x: clamp(pos.x as i64 + dx as i64, self.map.width as i64 - 1),
            y: clamp(pos.y as i64 + dy as i64, self.map.height as i64 - 1),
        };
        assert(to == self@.destination(pos, dx as int, dy as int));
        let idx = self.map.xy_idx(to.x, to.y);
        if self.map.tiles[idx] == TileType::Wall {
            return false;
        }
        self.positions.set(entity, Some(to));
        match &mut self.viewsheds[entity] {
            Some(v) => {
                v.dirty = true;
            },
            None => {},
        }
        if self.players[entity].is_some() {
            self.player_position = PlayerPosition(Coord { x: to.x, y: to.y });
        }
        assert(self@ =~~= old(self)@.moved(entity as int, dx as int, dy as int));
        true
    }
}

/// `v` brought into `[0, hi]`.
fn clamp(v: i64, hi: i64) -> (r: i32)
    requires
        0 <= hi <= i32::MAX,
    ensures
        r == clamped(v as int, 0, hi as int),
{
    if v < 0 {
        0
    } else if v > hi {
        hi as i32
    } else {
        v as i32
    }
}

/// Has every entity that the player steers try a step by
/// `(delta_x, delta_y)`, and says whether one of them made it.
pub fn try_move_player(delta_x: i32, delta_y: i32, ecs: &mut World) -> (moved: bool)
    requires
        old(ecs).wf(),
    ensures
        final(ecs).wf(),
        final(ecs)@ == old(ecs)@.players_moved(
            delta_x as int,
            delta_y as int,
            old(ecs)@.count(),
        ),
        moved == old(ecs)@.a_player_can_move(delta_x as int, delta_y as int, old(ecs)@.count()),
        final(ecs).map == old(ecs).map,
{
    let ghost start = ecs@;
    let ghost dx = delta_x as int;
    let ghost dy = delta_y as int;
    let count = ecs.positions.len();
    let mut moved = false;
    let mut e: usize = 0;
    while e < count
        invariant
            e <= count,
            count == start.count(),
            start == old(ecs)@,
            start.wf(),
            dx == delta_x && dy == delta_y,
            ecs.wf(),
            ecs.map == old(ecs).map,
            ecs@ == start.players_moved(dx, dy, e as nat),
            moved == start.a_player_can_move(dx, dy, e as nat),
            ecs@.count() == count,
            ecs@.tiles == start.tiles,
            ecs@.width == start.width,
            ecs@.height == start.height,
            ecs@.players == start.players,
            ecs@.agrees_from(start, e as int),
        decreases count - e,
    {
        let ghost before = ecs@;
        proof {
            before.lemma_moved_wf(e as int, dx, dy);
        }
        let steered = ecs.players[e].is_some() && ecs.positions[e].is_some()
            && ecs.viewsheds[e].is_some();
        assert(before.agrees_at(start, e as int));
        if steered {
            let stepped = ecs.try_move_entity(e, delta_x, delta_y);
            moved = moved || stepped;
        }
        proof {
            let n = (e + 1) as nat;
            assert(start.players_moved(dx, dy, n) == ecs@);
            assert forall|o: int| e < o < count implies #[trigger] ecs@.agrees_at(start, o) by {
                assert(before.agrees_at(start, o));
            }
            if moved {
                if start.steered(e as int) && start.can_move(e as int, dx, dy) {
                } else {
                    let w = choose|w: int|
                        0 <= w < e && start.steered(w) && #[trigger] start.can_move(w, dx, dy);
                    assert(start.can_move(w, dx, dy));
                }
            } else {
                assert(!start.a_player_can_move(dx, dy, n)) by {
                    if start.a_player_can_move(dx, dy, n) {
                        let w = choose|w: int|
                            0 <= w < n && start.steered(w) && #[trigger] start.can_move(w, dx, dy);
                        if w < e {
                            assert(start.a_player_can_move(dx, dy, e as nat));
                        }
                    }
                }
            }
        }
        e += 1;
    }
    moved
}

/// Turns the key pressed, if any, into a step of the player, and says
/// whose turn it is next: the game's, if the player made a step, and the
/// player's again if no key was pressed, the key asks for no step, or the
/// step could not be made.
pub fn player_input(gs: &mut State, key: Option<Key>) -> (next: RunState)
    requires
        old(gs).ecs.wf(),
    ensures
        final(gs).ecs.wf(),
        final(gs).run_state == old(gs).run_state,
        final(gs).ecs.map == old(gs).ecs.map,
        final(gs).ecs@ == old(gs).ecs@.after_input(key),
        next == turn_after_input(old(gs).ecs@, key),
        key_asks_nothing(key) ==> final(gs).ecs == old(gs).ecs,
{
    let key = match key {
        Some(key) => key,
        None => {
            return RunState::Paused;
        },
    };
    let moved = match key {
        Key::Left | Key::N => try_move_player(-1, 0, &mut gs.ecs),
        Key::Down | Key::R => try_move_player(0, 1, &mut gs.ecs),
        Key::Up | Key::T => try_move_player(0, -1, &mut gs.ecs),
        Key::Right | Key::D => try_move_player(1, 0, &mut gs.ecs),
        Key::H => try_move_player(-1, -1, &mut gs.ecs),
        Key::G => try_move_player(1, -1, &mut gs.ecs),
        Key::B => try_move_player(-1, 1, &mut gs.ecs),
        Key::M => try_move_player(1, 1, &mut gs.ecs),
        Key::Other => {
            return RunState::Paused;
        },
    };
    if moved {
        RunState::Running
    } else {
        RunState::Paused
    }
}

} // verus!
