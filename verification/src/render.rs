//! What is to be drawn: the tiles the player has come to know, and the
//! entities in view. Putting glyphs on a screen is left to the caller.

use crate::map::{col_of, row_of, spec_index, TileType};
use crate::world::{World, WorldView};
use vstd::prelude::*;

verus! {

/// A tile to draw: where, with which glyph, and whether it is in view now
/// or only remembered.
#[derive(Clone, Copy, Debug, PartialEq, Eq, Structural)]
pub struct MapCell {
    pub x: i32,
    pub y: i32,
    pub glyph: char,
    pub lit: bool,
}

impl WorldView {
    /// How the tile with index `idx` is drawn: floor as a dot, wall as a
    /// hash.
    pub open spec fn cell_at(self, idx: int) -> MapCell {
        MapCell {
            x: col_of(self.width, idx) as i32,
            y: row_of(self.width, idx) as i32,
            glyph: if self.tiles[idx] == TileType::Floor {
                '.'
            } else {
                '#'
            },
            lit: self.visible[idx],
        }
    }

    /// The revealed tiles among the first `n`, in the order of their
    /// indices, each as it is drawn.
    pub open spec fn drawn_cells(self, n: nat) -> Seq<MapCell>
        decreases n,
    {
        if n == 0 {
            Seq::empty()
        } else if self.revealed[n - 1] {
            self.drawn_cells((n - 1) as nat).push(self.cell_at(n - 1))
        } else {
            self.drawn_cells((n - 1) as nat)
        }
    }

    /// Entity `e` stands on a tile that is in view, and has a way of
    /// being drawn.
    pub open spec fn shows(self, e: int) -> bool {
        &&& self.renderables[e] is Some
        &&& self.positions[e] matches Some(p)
        &&& self.visible[spec_index(self.width, p.x as int, p.y as int)]
    }

    /// The entities among the first `n` that show, lowest number first.
    pub open spec fn drawn_entities(self, n: nat) -> Seq<usize>
        decreases n,
    {
        if n == 0 {
            Seq::empty()
        } else if self.shows(n - 1) {
            self.drawn_entities((n - 1) as nat).push((n - 1) as usize)
        } else {
            self.drawn_entities((n - 1) as nat)
        }
    }
}

/// The tiles of the map to draw: every revealed tile, in the order of the
/// indices, with its place, its glyph and whether it is in view.
pub fn draw_map(ecs: &World) -> (cells: Vec<MapCell>)
    requires
        ecs.wf(),
    ensures
        cells@ == ecs@.drawn_cells(ecs@.tiles.len()),
{
    let mut cells: Vec<MapCell> = Vec::new();
    let len = ecs.map.tiles.len();
    let mut idx: usize = 0;
    while idx < len
        invariant
            idx <= len,
            len == ecs@.tiles.len(),
            ecs.wf(),
            cells@ == ecs@.drawn_cells(idx as nat),
        decreases len - idx,
    {
        if ecs.map.revealed_tiles[idx] {
            let (x, y) = ecs.map.idx_xy(idx);
            let glyph = match ecs.map.tiles[idx] {
                TileType::Floor => '.',
                TileType::Wall => '#',
            };
            cells.push(MapCell { x, y, glyph, lit: ecs.map.visible_tiles[idx] });
        }
        idx += 1;
    }
    cells
}

/// The entities to draw: every entity that has a way of being drawn and
/// stands on a tile in view, lowest number first.
pub fn draw_entities(ecs: &World) -> (ids: Vec<usize>)
    requires
        ecs.wf(),
    ensures
        ids@ == ecs@.drawn_entities(ecs@.count()),
{
    let mut ids: Vec<usize> = Vec::new();
    let count = ecs.positions.len();
    let mut e: usize = 0;
    while e < count
        invariant
            e <= count,
            count == ecs@.count(),
            ecs.wf(),
            ids@ == ecs@.drawn_entities(e as nat),
        decreases count - e,
    {
        proof {
            assert(ecs@.entity_ok(e as int));
        }
        if ecs.renderables[e].is_some() {
            match ecs.positions[e] {
                Some(pos) => {
                    let idx = ecs.map.xy_idx(pos.x, pos.y);
                    if ecs.map.visible_tiles[idx] {
                        ids.push(e);
                    }
                },
                None => {},
            }
        }
        e += 1;
    }
    ids
}

} // verus!
