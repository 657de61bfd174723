//! The visibility engine: what each sighted entity sees, and what the
//! player's sight does to the map.

use crate::components::{Coord, Position, SightView, Viewshed};
use crate::fov::{field_of_view, lit_from, opacity, sight_fits, within_range};
use crate::map::{spec_index, TileMap};
use crate::world::{sight_ok, World, WorldView};
use vstd::prelude::*;

verus! {

/// For each tile index below `len`, whether it is the index of a point of
/// `lit`.
pub open spec fn lit_bitmap(lit: Set<Coord>, width: int, len: nat) -> Seq<bool> {
    Seq::new(
        len,
        |i: int|
            exists|p: Coord|
                lit.contains(p) && #[trigger] spec_index(width, p.x as int, p.y as int) == i,
    )
}

/// Tile by tile, whether it was seen before or is lit now.
pub open spec fn revealed_with(revealed: Seq<bool>, lit: Seq<bool>) -> Seq<bool> {
    Seq::new(revealed.len(), |i: int| revealed[i] || lit[i])
}

/// What `rltk::field_of_view` finds in view on this map from `pos` out to
/// `range`.
pub open spec fn view_from(map: &TileMap, pos: Position, range: int) -> Set<Coord> {
    lit_from(
        pos.x as int,
        pos.y as int,
        range,
        map.width as int,
        map.height as int,
        opacity(map.tiles@),
    )
}

impl WorldView {
    /// Entity `e` stands somewhere and has a viewshed, and the viewshed
    /// is marked dirty.
    pub open spec fn needs_look(self, e: int) -> bool {
        &&& 0 <= e < self.count()
        &&& self.positions[e] is Some
        &&& self.viewsheds[e] matches Some(v) && v.dirty
    }

    /// What the sight engine finds in view for entity `e`.
    pub open spec fn lit(self, e: int) -> Set<Coord> {
        lit_from(
            self.positions[e]->0.x as int,
            self.positions[e]->0.y as int,
            self.viewsheds[e]->0.range,
            self.width,
            self.height,
            opacity(self.tiles),
        )
    }

    /// The world after the visibility engine has dealt with entity `e`.
    /// Unless the entity needs a look, nothing changes. If it does, its
    /// viewshed holds what the sight engine finds and is clean; and where
    /// the entity is the player's, the map shows as visible exactly what
    /// is in view, and as revealed what was revealed or is in view.
    pub open spec fn looked(self, e: int) -> WorldView {
        if self.needs_look(e) {
            let lit = self.lit(e);
            let bitmap = lit_bitmap(lit, self.width, self.tiles.len());
            WorldView {
                viewsheds: self.viewsheds.update(
                    e,
                    Some(
                        SightView {
                            visible: lit,
                            range: self.viewsheds[e]->0.range,
                            dirty: false,
                        },
                    ),
                ),
                visible: if self.players[e] {
                    bitmap
                } else {
                    self.visible
                },
                revealed: if self.players[e] {
                    revealed_with(self.revealed, bitmap)
                } else {
                    self.revealed
                },
                ..self
            }
        } else {
            self
        }
    }

    /// The world after the visibility engine has dealt with the first
    /// `n` entities, lowest number first.
    pub open spec fn all_looked(self, n: nat) -> WorldView
        decreases n,
    {
        if n == 0 {
            self
        } else {
            self.all_looked((n - 1) as nat).looked(n - 1)
        }
    }

    /// A pass of the visibility engine leaves the entities where they
    /// are, and the ones it has not come to as they were.
    pub proof fn lemma_all_looked_frame(self, n: nat)
        requires
            self.viewsheds.len() == self.count(),
        ensures
            self.all_looked(n).count() == self.count(),
            self.all_looked(n).positions == self.positions,
            self.all_looked(n).players == self.players,
            self.all_looked(n).tiles == self.tiles,
            self.all_looked(n).width == self.width,
            self.all_looked(n).height == self.height,
            self.all_looked(n).viewsheds.len() == self.viewsheds.len(),
            forall|e: int|
                n <= e < self.viewsheds.len() ==> self.all_looked(n).viewsheds[e]
                    == self.viewsheds[e],
            forall|e: int|
                0 <= e < n && e < self.viewsheds.len() ==> !#[trigger] self.all_looked(
                    n,
                ).needs_look(e),
        decreases n,
    {
        if n > 0 {
            let before = self.all_looked((n - 1) as nat);
            self.lemma_all_looked_frame((n - 1) as nat);
            let after = before.looked(n - 1);
            assert forall|e: int| 0 <= e < n && e < self.viewsheds.len() implies !#[trigger] after
                .needs_look(e) by {
                if e < n - 1 {
                    assert(!before.needs_look(e));
                }
            }
        }
    }

    /// Where no entity needs a look, a pass of the visibility engine
    /// changes nothing.
    pub proof fn lemma_clean_is_fixed(self, n: nat)
        requires
            forall|e: int| 0 <= e < n ==> !#[trigger] self.needs_look(e),
        ensures
            self.all_looked(n) == self,
        decreases n,
    {
        if n > 0 {
            self.lemma_clean_is_fixed((n - 1) as nat);
            assert(!self.needs_look(n - 1));
        }
    }

    /// Running the visibility engine a second time, with nothing moved in
    /// between, changes nothing: no viewshed is computed again and every
    /// one holds what it held.
    pub proof fn lemma_look_idempotent(self)
        requires
            self.viewsheds.len() == self.count(),
        ensures
            self.all_looked(self.count()).all_looked(self.count()) == self.all_looked(
                self.count(),
            ),
    {
        let n = self.count();
        self.lemma_all_looked_frame(n);
        self.all_looked(n).lemma_clean_is_fixed(n);
    }

    /// In a world that is in order, a viewshed that is up to date holds
    /// nothing off the grid and nothing farther than its range from where
    /// its entity stands, and it holds the entity's own tile.
    pub proof fn lemma_sight_in_range(self, e: int, c: Coord)
        requires
            self.wf(),
            0 <= e < self.count(),
            self.positions[e] is Some,
            self.viewsheds[e] matches Some(v) && !v.dirty && v.visible.contains(c),
        ensures
            within_range(
                self.positions[e]->0.x as int,
                self.positions[e]->0.y as int,
                self.viewsheds[e]->0.range,
                c,
            ),
            crate::map::in_bounds(self.width, self.height, c.x as int, c.y as int),
            self.viewsheds[e]->0.visible.contains(
                Coord { x: self.positions[e]->0.x, y: self.positions[e]->0.y },
            ),
    {
        assert(self.entity_ok(e));
    }

    /// What has been revealed stays revealed through a pass of the
    /// visibility engine, and what the map shows as visible after the
    /// pass is revealed.
    pub proof fn lemma_reveal_monotone(self, n: nat)
        requires
            self.viewsheds.len() == self.count(),
            self.revealed.len() == self.tiles.len(),
            self.visible.len() == self.tiles.len(),
            forall|i: int|
                0 <= i < self.visible.len() && #[trigger] self.visible[i] ==> self.revealed[i],
        ensures
            self.all_looked(n).revealed.len() == self.revealed.len(),
            self.all_looked(n).visible.len() == self.visible.len(),
            forall|i: int|
                0 <= i < self.revealed.len() && self.revealed[i] ==> #[trigger] self.all_looked(
                    n,
                ).revealed[i],
            forall|i: int|
                0 <= i < self.visible.len() && #[trigger] self.all_looked(n).visible[i]
                    ==> self.all_looked(n).revealed[i],
        decreases n,
    {
        if n > 0 {
            let before = self.all_looked((n - 1) as nat);
            self.lemma_reveal_monotone((n - 1) as nat);
            self.lemma_all_looked_frame((n - 1) as nat);
            let after = before.looked(n - 1);
            assert forall|i: int| 0 <= i < self.revealed.len() && self.revealed[i] implies
                #[trigger] after.revealed[i] by {
                assert(before.revealed[i]);
            }
            assert forall|i: int| 0 <= i < self.visible.len() && #[trigger] after.visible[i] implies
                after.revealed[i] by {
                if !(before.needs_look(n - 1) && before.players[n - 1]) {
                    assert(before.visible[i]);
                }
            }
        }
    }
}

/// The visibility system.
pub struct Visibility;

impl Visibility {
    /// Stores `seen` as what the entity has in view and clears its dirty
    /// flag. For the player, the map's bitmap of visible tiles is set to
    /// exactly the tiles of `seen`, and each of them is marked as revealed
    /// for good. Another entity's sight leaves the map alone.
    pub fn apply_sight(
        map: &mut TileMap,
        viewshed: &mut Viewshed,
        is_player: bool,
        seen: Vec<Coord>,
    )
        requires
            old(map).wf(),
            forall|k: int|
                0 <= k < seen@.len() ==> old(map).contains(
                    (#[trigger] seen@[k]).x as int,
                    seen@[k].y as int,
                ),
        ensures
            final(viewshed).visible_tiles@ == seen@,
            final(viewshed).range == old(viewshed).range,
            !final(viewshed).dirty,
            final(map).tiles == old(map).tiles,
            final(map).rooms == old(map).rooms,
            final(map).width == old(map).width,
            final(map).height == old(map).height,
            final(map).wf(),
            !is_player ==> final(map).revealed_tiles == old(map).revealed_tiles,
            !is_player ==> final(map).visible_tiles == old(map).visible_tiles,
            is_player ==> final(map).visible_tiles@ == lit_bitmap(
                seen@.to_set(),
                old(map).width as int,
                old(map).tiles@.len(),
            ),
            is_player ==> final(map).revealed_tiles@ == revealed_with(
                old(map).revealed_tiles@,
                final(map).visible_tiles@,
            ),
    {
        if is_player {
            let len: usize = map.visible_tiles.len();
            let mut i: usize = 0;
            while i < len
                invariant
                    i <= len,
                    len == map.visible_tiles@.len(),
                    forall|j: int| 0 <= j < i ==> !map.visible_tiles@[j],
                    map.tiles == old(map).tiles,
                    map.rooms == old(map).rooms,
                    map.width == old(map).width,
                    map.height == old(map).height,
                    map.revealed_tiles == old(map).revealed_tiles,
                decreases len - i,
            {
                map.visible_tiles.set(i, false);
                i += 1;
            }
            let ghost width = map.width as int;
            let mut k: usize = 0;
            while k < seen.len()
                invariant
                    k <= seen@.len(),
                    map.wf(),
                    width == map.width,
                    forall|j: int|
                        0 <= j < seen@.len() ==> map.contains(
                            (#[trigger] seen@[j]).x as int,
                            seen@[j].y as int,
                        ),
                    forall|i: int|
                        0 <= i < map.visible_tiles@.len() ==> map.visible_tiles@[i] == (exists|
                            j: int,
                        |
                            0 <= j < k && spec_index(
                                width,
                                (#[trigger] seen@[j]).x as int,
                                seen@[j].y as int,
                            ) == i),
                    forall|i: int|
                        0 <= i < map.revealed_tiles@.len() ==> map.revealed_tiles@[i] == (old(
                            map,
                        ).revealed_tiles@[i] || map.visible_tiles@[i]),
                    map.tiles == old(map).tiles,
                    map.rooms == old(map).rooms,
                    map.width == old(map).width,
                    map.height == old(map).height,
                decreases seen@.len() - k,
            {
                let p = seen[k];
                let idx = map.xy_idx(p.x, p.y);
                map.revealed_tiles.set(idx, true);
                map.visible_tiles.set(idx, true);
                k += 1;
            }
            proof {
                let lit = lit_bitmap(seen@.to_set(), width, old(map).tiles@.len());
                assert forall|i: int| 0 <= i < lit.len() implies map.visible_tiles@[i]
                    == lit[i] by {
                    if map.visible_tiles@[i] {
                        let j = choose|j: int|
                            0 <= j < seen@.len() && spec_index(
                                width,
                                (#[trigger] seen@[j]).x as int,
                                seen@[j].y as int,
                            ) == i;
                        assert(seen@.to_set().contains(seen@[j]));
                    }
                    if lit[i] {
                        let p = choose|p: Coord|
                            seen@.to_set().contains(p) && #[trigger] spec_index(
                                width,
                                p.x as int,
                                p.y as int,
                            ) == i;
                        assert(seen@.contains(p));
                        let j = choose|j: int| 0 <= j < seen@.len() && seen@[j] == p;
                        assert(spec_index(width, seen@[j].x as int, seen@[j].y as int) == i);
                    }
                }
                assert(map.visible_tiles@ =~= lit);
                assert(map.revealed_tiles@ =~= revealed_with(
                    old(map).revealed_tiles@,
                    map.visible_tiles@,
                ));
            }
        }
        viewshed.visible_tiles = seen;
        viewshed.dirty = false;
    }

    /// Brings one entity's sight up to date. A viewshed that is not dirty
    /// is left alone, and so is the map. A dirty one is recomputed from
    /// the entity's position and range by the sight engine and handed to
    /// `apply_sight`: the entity then sees its own tile and nothing
    /// farther than `range` rows or columns away, and, for the player,
    /// the map shows as visible what is in view and as revealed what was
    /// revealed or is in view.
    pub fn look(map: &mut TileMap, pos: &Position, viewshed: &mut Viewshed, is_player: bool)
        requires
            old(map).wf(),
            sight_fits(old(map)),
            old(map).contains(pos.x as int, pos.y as int),
            old(viewshed).wf(),
        ensures
            final(map).wf(),
            final(map).tiles == old(map).tiles,
            final(map).rooms == old(map).rooms,
            final(map).width == old(map).width,
            final(map).height == old(map).height,
            !old(viewshed).dirty ==> *final(viewshed) == *old(viewshed) && *final(map) == *old(map),
            old(viewshed).dirty ==> final(viewshed)@ == (SightView {
                visible: view_from(old(map), *pos, old(viewshed).range as int),
                range: old(viewshed).range as int,
                dirty: false,
            }),
            old(viewshed).dirty ==> final(viewshed).visible_tiles@.no_duplicates(),
            old(viewshed).dirty ==> sight_ok(
                old(map).width as int,
                old(map).height as int,
                *pos,
                final(viewshed)@,
            ),
            old(viewshed).dirty && !is_player ==> final(map).revealed_tiles
                == old(map).revealed_tiles && final(map).visible_tiles == old(map).visible_tiles,
            old(viewshed).dirty && is_player ==> final(map).visible_tiles@ == lit_bitmap(
                view_from(old(map), *pos, old(viewshed).range as int),
                old(map).width as int,
                old(map).tiles@.len(),
            ),
            old(viewshed).dirty && is_player ==> final(map).revealed_tiles@ == revealed_with(
                old(map).revealed_tiles@,
                final(map).visible_tiles@,
            ),
    {
        if !viewshed.dirty {
            return ;
        }
        let seen = field_of_view(pos.x, pos.y, viewshed.range, map);
        proof {
            let lit = seen@.to_set();
            assert forall|c: Coord| #[trigger] lit.contains(c) implies map.contains(
                c.x as int,
                c.y as int,
            ) && within_range(pos.x as int, pos.y as int, viewshed.range as int, c) by {
                assert(seen@.contains(c));
                let k = choose|k: int| 0 <= k < seen@.len() && seen@[k] == c;
                assert(seen@[k] == c);
            }
            assert(lit.contains(Coord { x: pos.x, y: pos.y }));
        }
        Visibility::apply_sight(map, viewshed, is_player, seen);
    }

    /// One pass of the visibility engine over every entity, lowest number
    /// first. An entity whose viewshed is not dirty is passed over: its
    /// viewshed is not computed again and stays as it is. After the pass
    /// no entity needs a look.
    pub fn run(world: &mut World)
        requires
            old(world).wf(),
        ensures
            final(world).wf(),
            final(world)@ == old(world)@.all_looked(old(world)@.count()),
            forall|e: int|
                0 <= e < old(world)@.count() && !old(world)@.needs_look(e)
                    ==> final(world).viewsheds@[e] == old(world).viewsheds@[e],
            forall|e: int| 0 <= e < old(world)@.count() ==> !#[trigger] final(world)@.needs_look(e),
            final(world).map.tiles == old(world).map.tiles,
            final(world).map.rooms == old(world).map.rooms,
    {
        let ghost start = world@;
        let count = world.positions.len();
        let mut e: usize = 0;
        while e < count
            invariant
                e <= count,
                count == start.count(),
                start == old(world)@,
                start.wf(),
                world.wf(),
                world@ == start.all_looked(e as nat),
                world.map.tiles == old(world).map.tiles,
                world.map.rooms == old(world).map.rooms,
                forall|o: int| e <= o < count ==> world.viewsheds@[o] == old(world).viewsheds@[o],
                forall|o: int|
                    0 <= o < e && !start.needs_look(o)
                        ==> world.viewsheds@[o] == old(world).viewsheds@[o],
            decreases count - e,
        {
            let ghost before = world@;
            let ghost before_sheds = world.viewsheds@;
            proof {
                start.lemma_all_looked_frame(e as nat);
                assert(before.entity_ok(e as int));
                assert(before.needs_look(e as int) == start.needs_look(e as int));
            }
            let is_player = world.players[e].is_some();
            match world.positions[e] {
                Some(pos) => {
                    match &mut world.viewsheds[e] {
                        Some(v) => {
                            Visibility::look(&mut world.map, &pos, v, is_player);
                        },
                        None => {},
                    }
                },
                None => {},
            }
            proof {
                let after = world@;
                let want = before.looked(e as int);
                if before.needs_look(e as int) {
                    assert(after.viewsheds =~~= want.viewsheds);
                    assert(after =~~= want);
                    assert forall|o: int| 0 <= o < after.count() implies #[trigger] after.entity_ok(
                        o,
                    ) by {
                        assert(before.entity_ok(o));
                    }
                    assert(after.wf());
                } else {
                    assert(world.viewsheds@ =~= before_sheds);
                    assert(after =~~= before);
                }
            }
            e += 1;
        }
        proof {
            start.lemma_all_looked_frame(count as nat);
        }
    }
}

} // verus!
