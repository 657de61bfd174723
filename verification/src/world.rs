//! The world: the map and an arena of entities, one container per kind of
//! component, all indexed by the entity's number.

use crate::components::{
    Coord, Monster, Name, Player, PlayerPosition, Position, Renderable, SightView, Viewshed,
    MAX_RANGE,
};
use crate::fov::{sight_fits, within_range};
use crate::map::{in_bounds, spec_index, TileMap, TileType};
use crate::rect::Rect;
use vstd::prelude::*;

verus! {

/// The map, the player's last known place, and the components of every
/// entity. Entity `e` owns entry `e` of each container; `None` there means
/// that it lacks that component.
pub struct World {
    pub map: TileMap,
    pub player_position: PlayerPosition,
    pub positions: Vec<Option<Position>>,
    pub viewsheds: Vec<Option<Viewshed>>,
    pub players: Vec<Option<Player>>,
    pub monsters: Vec<Option<Monster>>,
    pub names: Vec<Option<Name>>,
    pub renderables: Vec<Option<Renderable>>,
}

/// The components an entity is created with.
pub struct Components {
    pub position: Option<Position>,
    pub viewshed: Option<Viewshed>,
    pub player: Option<Player>,
    pub monster: Option<Monster>,
    pub name: Option<Name>,
    pub renderable: Option<Renderable>,
}

/// The components of one entity, as contracts speak of them.
#[verifier::ext_equal]
pub struct PartsView {
    pub position: Option<Position>,
    pub viewshed: Option<SightView>,
    pub player: bool,
    pub monster: bool,
    pub name: Option<Seq<char>>,
    pub renderable: Option<Renderable>,
}

/// The world, as contracts speak of it.
#[verifier::ext_equal]
pub struct WorldView {
    pub tiles: Seq<TileType>,
    pub width: int,
    pub height: int,
    pub rooms: Seq<Rect>,
    pub revealed: Seq<bool>,
    pub visible: Seq<bool>,
    pub player_position: Coord,
    pub positions: Seq<Option<Position>>,
    pub viewsheds: Seq<Option<SightView>>,
    pub players: Seq<bool>,
    pub monsters: Seq<bool>,
    pub names: Seq<Option<Seq<char>>>,
    pub renderables: Seq<Option<Renderable>>,
}

/// A viewshed component as contracts speak of it.
pub open spec fn sight_of(v: Option<Viewshed>) -> Option<SightView> {
    match v {
        Some(v) => Some(v@),
        None => None,
    }
}

/// A name component as contracts speak of it.
pub open spec fn text_of(n: Option<Name>) -> Option<Seq<char>> {
    match n {
        Some(n) => Some(n.0@),
        None => None,
    }
}

/// The value `v` brought into `[lo, hi]`.
pub open spec fn clamped(v: int, lo: int, hi: int) -> int {
    if v < lo {
        lo
    } else if v > hi {
        hi
    } else {
        v
    }
}

/// What a viewshed that is up to date holds for an entity at `p`: the
/// entity's own tile, and besides it only tiles of the grid no farther
/// than `range` rows and columns away.
pub open spec fn sight_ok(width: int, height: int, p: Position, v: SightView) -> bool {
    &&& v.visible.contains(Coord { x: p.x, y: p.y })
    &&& forall|c: Coord| #[trigger]
        v.visible.contains(c) ==> in_bounds(width, height, c.x as int, c.y as int) && within_range(
            p.x as int,
            p.y as int,
            v.range,
            c,
        )
}

impl View for Components {
    type V = PartsView;

    open spec fn view(&self) -> PartsView {
        PartsView {
            position: self.position,
            viewshed: sight_of(self.viewshed),
            player: self.player is Some,
            monster: self.monster is Some,
            name: text_of(self.name),
            renderable: self.renderable,
        }
    }
}

impl View for World {
    type V = WorldView;

    open spec fn view(&self) -> WorldView {
        WorldView {
            tiles: self.map.tiles@,
            width: self.map.width as int,
            height: self.map.height as int,
            rooms: self.map.rooms@,
            revealed: self.map.revealed_tiles@,
            visible: self.map.visible_tiles@,
            player_position: self.player_position.0,
            positions: self.positions@,
            viewsheds: Seq::new(self.viewsheds@.len(), |e: int| sight_of(self.viewsheds@[e])),
            players: Seq::new(self.players@.len(), |e: int| self.players@[e] is Some),
            monsters: Seq::new(self.monsters@.len(), |e: int| self.monsters@[e] is Some),
            names: Seq::new(self.names@.len(), |e: int| text_of(self.names@[e])),
            renderables: self.renderables@,
        }
    }
}

impl WorldView {
    /// How many entities there are.
    pub open spec fn count(self) -> nat {
        self.positions.len()
    }

    /// Entity `e` stands on the grid, its range is one the sight engine
    /// can work with, and its viewshed, unless marked dirty, is up to date
    /// for where it stands.
    pub open spec fn entity_ok(self, e: int) -> bool {
        &&& self.positions[e] matches Some(p) ==> in_bounds(
            self.width,
            self.height,
            p.x as int,
            p.y as int,
        )
        &&& self.viewsheds[e] matches Some(v) ==> 0 <= v.range <= MAX_RANGE
        &&& self.viewsheds[e] matches Some(v) ==> (self.positions[e] matches Some(p) ==> v.dirty
            || sight_ok(self.width, self.height, p, v))
    }

    /// The grid is well formed and small enough for the sight engine,
    /// every container has one entry per entity, every entity is in
    /// order, and every tile that is visible has been revealed.
    pub open spec fn wf(self) -> bool {
        &&& self.width > 0
        &&& self.height > 0
        &&& self.tiles.len() == self.width * self.height
        &&& self.revealed.len() == self.tiles.len()
        &&& self.visible.len() == self.tiles.len()
        &&& self.width * self.height <= i32::MAX
        &&& self.width + MAX_RANGE <= i32::MAX
        &&& self.height + MAX_RANGE <= i32::MAX
        &&& self.viewsheds.len() == self.count()
        &&& self.players.len() == self.count()
        &&& self.monsters.len() == self.count()
        &&& self.names.len() == self.count()
        &&& self.renderables.len() == self.count()
        &&& forall|i: int|
            0 <= i < self.visible.len() && #[trigger] self.visible[i] ==> self.revealed[i]
        &&& forall|e: int| 0 <= e < self.count() ==> #[trigger] self.entity_ok(e)
    }

    /// The world with one more entity, made of `parts`.
    pub open spec fn with_entity(self, parts: PartsView) -> WorldView {
        WorldView {
            positions: self.positions.push(parts.position),
            viewsheds: self.viewsheds.push(parts.viewshed),
            players: self.players.push(parts.player),
            monsters: self.monsters.push(parts.monster),
            names: self.names.push(parts.name),
            renderables: self.renderables.push(parts.renderable),
            ..self
        }
    }

    /// The world with every component taken from entity `e`. Its number
    /// stays taken, so that the numbers of the others stay as they are.
    pub open spec fn without_entity(self, e: int) -> WorldView {
        if 0 <= e < self.count() {
            WorldView {
                positions: self.positions.update(e, None),
                viewsheds: self.viewsheds.update(e, None),
                players: self.players.update(e, false),
                monsters: self.monsters.update(e, false),
                names: self.names.update(e, None),
                renderables: self.renderables.update(e, None),
                ..self
            }
        } else {
            self
        }
    }

    /// The tile `(x, y)` of the grid can be stood on.
    pub open spec fn walkable(self, x: int, y: int) -> bool {
        self.tiles[spec_index(self.width, x, y)] != TileType::Wall
    }

    /// Where a step by `(dx, dy)` from `p` leads: the coordinates added
    /// up and then brought back onto the grid.
    pub open spec fn destination(self, p: Position, dx: int, dy: int) -> Position {
        Position {
            x: clamped(p.x + dx, 0, self.width - 1) as i32,
            y: clamped(p.y + dy, 0, self.height - 1) as i32,
        }
    }

    /// Entity `e` exists, stands somewhere, and a step by `(dx, dy)`
    /// takes it to a tile that is not wall.
    pub open spec fn can_move(self, e: int, dx: int, dy: int) -> bool {
        &&& 0 <= e < self.count()
        &&& self.positions[e] matches Some(p)
        &&& self.walkable(
            self.destination(p, dx, dy).x as int,
            self.destination(p, dx, dy).y as int,
        )
    }

    /// The world after entity `e` tried a step by `(dx, dy)`. A step that
    /// cannot be made changes nothing. One that can puts the entity at
    /// its destination, marks its viewshed, if it has one, as dirty, and,
    /// where the entity is the player's, notes the new place as the
    /// player's last known one.
    pub open spec fn moved(self, e: int, dx: int, dy: int) -> WorldView {
        if self.can_move(e, dx, dy) {
            let to = self.destination(self.positions[e]->0, dx, dy);
            WorldView {
                positions: self.positions.update(e, Some(to)),
                viewsheds: self.viewsheds.update(
                    e,
                    match self.viewsheds[e] {
                        Some(v) => Some(SightView { dirty: true, ..v }),
                        None => None,
                    },
                ),
                player_position: if self.players[e] {
                    Coord { x: to.x, y: to.y }
                } else {
                    self.player_position
                },
                ..self
            }
        } else {
            self
        }
    }
}

impl PartsView {
    /// The parts can join a world with the given grid: the position, if
    /// any, is on the grid, and the viewshed, if any, has a range the
    /// sight engine can work with and is marked dirty.
    pub open spec fn fits(self, width: int, height: int) -> bool {
        &&& self.position matches Some(p) ==> in_bounds(width, height, p.x as int, p.y as int)
        &&& self.viewshed matches Some(v) ==> 0 <= v.range <= MAX_RANGE && v.dirty
    }
}

impl Components {
    /// Whether the parts can join a world with the given map.
    pub fn fits(&self, map: &TileMap) -> (ok: bool)
        ensures
            ok == self@.fits(map.width as int, map.height as int),
    {
        let placed = match self.position {
            Some(p) => 0 <= p.x && p.x < map.width && 0 <= p.y && p.y < map.height,
            None => true,
        };
        let sighted = match &self.viewshed {
            Some(v) => 0 <= v.range && v.range <= MAX_RANGE && v.dirty,
            None => true,
        };
        placed && sighted
    }
}

/// Whether what a viewshed holds is what an up-to-date viewshed of an
/// entity at `p` may hold on this map.
fn sight_is_ok(map: &TileMap, p: Position, v: &Viewshed) -> (ok: bool)
    requires
        map.wf(),
    ensures
        ok == sight_ok(map.width as int, map.height as int, p, v@),
{
    let ghost width = map.width as int;
    let ghost height = map.height as int;
    let ghost seen = v.visible_tiles@;
    let mut found = false;
    let mut k: usize = 0;
    while k < v.visible_tiles.len()
        invariant
            k <= seen.len(),
            seen == v.visible_tiles@,
            width == map.width && height == map.height,
            found == (exists|j: int| 0 <= j < k && seen[j] == Coord { x: p.x, y: p.y }),
            forall|j: int|
                0 <= j < k ==> in_bounds(
                    width,
                    height,
                    (#[trigger] seen[j]).x as int,
                    seen[j].y as int,
                ) && within_range(p.x as int, p.y as int, v.range as int, seen[j]),
        decreases seen.len() - k,
    {
        let c = v.visible_tiles[k];
        let dx: i64 = c.x as i64 - p.x as i64;
        let dy: i64 = c.y as i64 - p.y as i64;
        let r: i64 = v.range as i64;
        let near = -r <= dx && dx <= r && -r <= dy && dy <= r;
        let inside = 0 <= c.x && c.x < map.width && 0 <= c.y && c.y < map.height;
        if !(near && inside) {
            proof {
                assert(seen.contains(c));
                assert(v@.visible.contains(c));
            }
            return false;
        }
        if c.x == p.x && c.y == p.y {
            found = true;
        }
        k += 1;
    }
    proof {
        let here = Coord { x: p.x, y: p.y };
        if found {
            let j = choose|j: int| 0 <= j < seen.len() && seen[j] == here;
            assert(seen.contains(here));
        } else {
            if seen.contains(here) {
                let j = choose|j: int| 0 <= j < seen.len() && seen[j] == here;
                assert(false);
            }
        }
        assert forall|c: Coord| #[trigger] v@.visible.contains(c) implies in_bounds(
            width,
            height,
            c.x as int,
            c.y as int,
        ) && within_range(p.x as int, p.y as int, v@.range, c) by {
            assert(seen.contains(c));
            let j = choose|j: int| 0 <= j < seen.len() && seen[j] == c;
            assert(seen[j] == c);
        }
    }
    found
}

impl World {
    /// The map is well formed and so is the world as a whole.
    pub open spec fn wf(&self) -> bool {
        self.map.wf() && self@.wf()
    }

    /// Whether the world is well formed. Every function that takes a
    /// world asks for a well-formed one and hands back a well-formed one;
    /// a caller that has changed a world by hand can ask here.
    pub fn is_valid(&self) -> (ok: bool)
        ensures
            ok == self.wf(),
    {
        if !self.map.is_valid() {
            return false;
        }
        let map = &self.map;
        let limit: i64 = i32::MAX as i64;
        assert(0 < map.width * map.height <= 0x4000_0000_0000_0000) by (nonlinear_arith)
            requires
                0 < map.width <= 0x7fff_ffff,
                0 < map.height <= 0x7fff_ffff,
        ;
        if map.width as i64 * map.height as i64 > limit || map.width as i64 + MAX_RANGE as i64
            > limit || map.height as i64 + MAX_RANGE as i64 > limit {
            return false;
        }
        let count = self.positions.len();
        if self.viewsheds.len() != count || self.players.len() != count || self.monsters.len()
            != count || self.names.len() != count || self.renderables.len() != count {
            return false;
        }
        let mut i: usize = 0;
        while i < map.visible_tiles.len()
            invariant
                i <= map.visible_tiles@.len(),
                map == &self.map,
                map.wf(),
                forall|j: int|
                    0 <= j < i && #[trigger] map.visible_tiles@[j] ==> map.revealed_tiles@[j],
            decreases map.visible_tiles@.len() - i,
        {
            if map.visible_tiles[i] && !map.revealed_tiles[i] {
                assert(self@.visible[i as int] && !self@.revealed[i as int]);
                return false;
            }
            i += 1;
        }
        let mut e: usize = 0;
        while e < count
            invariant
                e <= count,
                count == self@.count(),
                self.viewsheds@.len() == count,
                map == &self.map,
                map.wf(),
                forall|o: int| 0 <= o < e ==> #[trigger] self@.entity_ok(o),
            decreases count - e,
        {
            let placed = match self.positions[e] {
                Some(p) => 0 <= p.x && p.x < map.width && 0 <= p.y && p.y < map.height,
                None => true,
            };
            if !placed {
                assert(!self@.entity_ok(e as int));
                return false;
            }
            let sighted = match &self.viewsheds[e] {
                Some(v) => {
                    0 <= v.range && v.range <= MAX_RANGE && (v.dirty || match self.positions[e] {
                        Some(p) => sight_is_ok(map, p, v),
                        None => true,
                    })
                },
                None => true,
            };
            if !sighted {
                assert(!self@.entity_ok(e as int));
                return false;
            }
            assert(self@.entity_ok(e as int));
            e += 1;
        }
        true
    }

    /// A world with the given map and no entities.
    pub fn new(map: TileMap, player_position: PlayerPosition) -> (world: World)
        requires
            map.wf(),
            sight_fits(&map),
            forall|i: int|
                0 <= i < map.visible_tiles@.len() && #[trigger] map.visible_tiles@[i]
                    ==> map.revealed_tiles@[i],
        ensures
            world.wf(),
            world.map == map,
            world.player_position == player_position,
            world@.count() == 0,
    {
        World {
            map,
            player_position,
            positions: Vec::new(),
            viewsheds: Vec::new(),
            players: Vec::new(),
            monsters: Vec::new(),
            names: Vec::new(),
            renderables: Vec::new(),
        }
    }

    /// Adds an entity made of `parts` and returns its number.
    pub fn create_entity(&mut self, parts: Components) -> (id: usize)
        requires
            old(self).wf(),
            parts@.fits(old(self)@.width, old(self)@.height),
        ensures
            final(self).wf(),
            id == old(self)@.count(),
            final(self)@ == old(self)@.with_entity(parts@),
            final(self).map == old(self).map,
    {
        let id = self.positions.len();
        self.positions.push(parts.position);
        self.viewsheds.push(parts.viewshed);
        self.players.push(parts.player);
        self.monsters.push(parts.monster);
        self.names.push(parts.name);
        self.renderables.push(parts.renderable);
        proof {
            let before = old(self)@;
            let after = self@;
            assert(after =~~= before.with_entity(parts@));
            assert forall|e: int| 0 <= e < after.count() implies #[trigger] after.entity_ok(e) by {
                if e < before.count() {
                    assert(before.entity_ok(e));
                }
            }
        }
        id
    }

    /// Takes every component from entity `entity`. An entity that does
    /// not exist is passed over.
    pub fn remove_entity(&mut self, entity: usize)
        requires
            old(self).wf(),
        ensures
            final(self).wf(),
            final(self)@ == old(self)@.without_entity(entity as int),
            final(self).map == old(self).map,
    {
        if entity >= self.positions.len() {
            return ;
        }
        self.positions.set(entity, None);
        self.viewsheds.set(entity, None);
        self.players.set(entity, None);
        self.monsters.set(entity, None);
        self.names.set(entity, None);
        self.renderables.set(entity, None);
        proof {
            let before = old(self)@;
            let after = self@;
            assert(after =~~= before.without_entity(entity as int));
            assert forall|e: int| 0 <= e < after.count() implies #[trigger] after.entity_ok(e) by {
                assert(before.entity_ok(e));
            }
        }
    }
}

} // verus!
