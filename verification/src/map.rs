//! The tile grid: its indexing, and the carving of rooms and corridors.

use crate::rect::Rect;
use vstd::prelude::*;

verus! {

/// What a tile is made of.
#[derive(Clone, Copy, Debug, PartialEq, Eq, Structural)]
pub enum TileType {
    Wall,
    Floor,
}

/// The dungeon: a row-major grid of tiles, the rooms in the order they
/// were placed, and two bitmaps over the grid: what has ever been seen and
/// what is seen right now.
pub struct TileMap {
    pub tiles: Vec<TileType>,
    pub rooms: Vec<Rect>,
    pub width: i32,
    pub height: i32,
    pub revealed_tiles: Vec<bool>,
    pub visible_tiles: Vec<bool>,
}

/// The linear index of `(x, y)` in a row-major grid `width` wide.
pub open spec fn spec_index(width: int, x: int, y: int) -> int {
    y * width + x
}

/// The column of the tile with linear index `idx`.
pub open spec fn col_of(width: int, idx: int) -> int {
    idx % width
}

/// The row of the tile with linear index `idx`.
pub open spec fn row_of(width: int, idx: int) -> int {
    idx / width
}

/// `(x, y)` is a tile of a `width` by `height` grid.
pub open spec fn in_bounds(width: int, height: int, x: int, y: int) -> bool {
    0 <= x < width && 0 <= y < height
}

/// `idx` is the index of some point of the box
/// `[x_lo, x_hi] x [y_lo, y_hi]`.
pub open spec fn covers(width: int, x_lo: int, x_hi: int, y_lo: int, y_hi: int, idx: int) -> bool {
    exists|x: int, y: int|
        x_lo <= x <= x_hi && y_lo <= y <= y_hi && #[trigger] spec_index(width, x, y) == idx
}

/// The tiles after every index of `tiles` that the box covers has been
/// turned to floor.
pub open spec fn carve(
    tiles: Seq<TileType>,
    width: int,
    x_lo: int,
    x_hi: int,
    y_lo: int,
    y_hi: int,
) -> Seq<TileType> {
    Seq::new(
        tiles.len(),
        |i: int|
            if covers(width, x_lo, x_hi, y_lo, y_hi, i) {
                TileType::Floor
            } else {
                tiles[i]
            },
    )
}

/// The tiles after a room has been opened up.
pub open spec fn carve_room(tiles: Seq<TileType>, width: int, room: Rect) -> Seq<TileType> {
    carve(tiles, width, room.x1 + 1, room.x2 as int, room.y1 + 1, room.y2 as int)
}

/// The tiles after a corridor was dug along row `y` between the columns
/// `x1` and `x2`, both included, in whichever order they come.
pub open spec fn carve_horizontal(
    tiles: Seq<TileType>,
    width: int,
    x1: int,
    x2: int,
    y: int,
) -> Seq<TileType> {
    carve(tiles, width, vstd::math::min(x1, x2), vstd::math::max(x1, x2), y, y)
}

/// The tiles after a corridor was dug along column `x` between the rows
/// `y1` and `y2`, both included, in whichever order they come.
pub open spec fn carve_vertical(
    tiles: Seq<TileType>,
    width: int,
    y1: int,
    y2: int,
    x: int,
) -> Seq<TileType> {
    carve(tiles, width, x, x, vstd::math::min(y1, y2), vstd::math::max(y1, y2))
}

/// Decoding the index of a tile gives its coordinates back.
pub proof fn lemma_index_decode(width: int, x: int, y: int)
    requires
        0 <= x < width,
    ensures
        col_of(width, spec_index(width, x, y)) == x,
        row_of(width, spec_index(width, x, y)) == y,
{
    vstd::arithmetic::div_mod::lemma_fundamental_div_mod_converse(y * width + x, width, y, x);
}

/// Encoding the coordinates of an index gives the index back, and the
/// coordinates of an index inside the grid are inside the grid.
pub proof fn lemma_decode_index(width: int, height: int, idx: int)
    requires
        width > 0,
        0 <= idx < width * height,
    ensures
        spec_index(width, col_of(width, idx), row_of(width, idx)) == idx,
        in_bounds(width, height, col_of(width, idx), row_of(width, idx)),
{
    vstd::arithmetic::div_mod::lemma_fundamental_div_mod(idx, width);
    vstd::arithmetic::div_mod::lemma_mod_bound(idx, width);
    let q = idx / width;
    assert(width * q == q * width) by (nonlinear_arith);
    assert(0 <= q < height) by (nonlinear_arith)
        requires
            width > 0,
            0 <= idx < width * height,
            idx == width * q + idx % width,
            0 <= idx % width < width,
    ;
}

/// The index of a tile of the grid is an index into its tiles.
pub proof fn lemma_index_in_range(width: int, height: int, x: int, y: int)
    requires
        in_bounds(width, height, x, y),
    ensures
        0 <= y * width <= spec_index(width, x, y) < width * height,
{
    assert(0 <= y * width && y * width + width <= width * height) by (nonlinear_arith)
        requires
            0 <= y < height,
            0 < width,
    ;
}

/// Two tiles of the grid with the same index are the same tile.
pub proof fn lemma_index_injective(width: int, x: int, y: int, u: int, v: int)
    requires
        0 <= x < width,
        0 <= u < width,
        spec_index(width, x, y) == spec_index(width, u, v),
    ensures
        x == u && y == v,
{
    lemma_index_decode(width, x, y);
    lemma_index_decode(width, u, v);
}

impl TileMap {
    /// The grid has a positive size and the three vectors hold one entry
    /// per tile.
    pub open spec fn wf(&self) -> bool {
        &&& self.width > 0
        &&& self.height > 0
        &&& self.tiles.len() == self.width * self.height
        &&& self.revealed_tiles.len() == self.width * self.height
        &&& self.visible_tiles.len() == self.width * self.height
    }

    /// `(x, y)` is a tile of this map.
    pub open spec fn contains(&self, x: int, y: int) -> bool {
        in_bounds(self.width as int, self.height as int, x, y)
    }

    /// The tile at `(x, y)`.
    pub open spec fn tile(&self, x: int, y: int) -> TileType {
        self.tiles@[spec_index(self.width as int, x, y)]
    }

    /// Whether the map is well formed.
    pub fn is_valid(&self) -> (ok: bool)
        ensures
            ok == self.wf(),
    {
        if self.width <= 0 || self.height <= 0 {
            return false;
        }
        assert(0 < self.width * self.height <= 0x4000_0000_0000_0000) by (nonlinear_arith)
            requires
                0 < self.width <= 0x7fff_ffff,
                0 < self.height <= 0x7fff_ffff,
        ;
        let size: u128 = self.width as u128 * self.height as u128;
        self.tiles.len() as u128 == size && self.revealed_tiles.len() as u128 == size
            && self.visible_tiles.len() as u128 == size
    }

    /// The linear index of the tile `(x, y)`.
    pub fn xy_idx(&self, x: i32, y: i32) -> (idx: usize)
        requires
            self.wf(),
            self.contains(x as int, y as int),
        ensures
            idx == spec_index(self.width as int, x as int, y as int),
            idx < self.tiles.len(),
    {
        proof {
            lemma_index_in_range(self.width as int, self.height as int, x as int, y as int);
        }
        (y as usize * self.width as usize) + x as usize
    }

    /// The coordinates of the tile with linear index `idx`.
    pub fn idx_xy(&self, idx: usize) -> (p: (i32, i32))
        requires
            self.wf(),
            idx < self.tiles.len(),
        ensures
            p.0 == col_of(self.width as int, idx as int),
            p.1 == row_of(self.width as int, idx as int),
            self.contains(p.0 as int, p.1 as int),
            spec_index(self.width as int, p.0 as int, p.1 as int) == idx,
    {
        proof {
            lemma_decode_index(self.width as int, self.height as int, idx as int);
        }
        let w: usize = self.width as usize;
        ((idx % w) as i32, (idx / w) as i32)
    }

    /// Turns to floor every tile whose index is that of a point of the box
    /// `[x_lo, x_hi] x [y_lo, y_hi]`; points whose index falls outside the
    /// tile vector are passed over.
    fn dig(&mut self, x_lo: i32, x_hi: i32, y_lo: i32, y_hi: i32)
        requires
            old(self).wf(),
        ensures
            final(self).tiles@ == carve(
                old(self).tiles@,
                old(self).width as int,
                x_lo as int,
                x_hi as int,
                y_lo as int,
                y_hi as int,
            ),
            final(self).rooms == old(self).rooms,
            final(self).width == old(self).width,
            final(self).height == old(self).height,
            final(self).revealed_tiles == old(self).revealed_tiles,
            final(self).visible_tiles == old(self).visible_tiles,
    {
        let len: usize = self.tiles.len();
        let w: i64 = self.width as i64;
        let ghost before = self.tiles@;
        let mut y: i64 = y_lo as i64;
        while y <= y_hi as i64
            invariant
                y_lo <= y,
                y <= y_hi + 1 || y == y_lo,
                w == self.width == old(self).width,
                0 < w,
                len == self.tiles@.len() == before.len(),
                len == self.width * self.height,
                before == old(self).tiles@,
                forall|i: int|
                    0 <= i < len ==> self.tiles@[i] == (if covers(
                        w as int,
                        x_lo as int,
                        x_hi as int,
                        y_lo as int,
                        y - 1,
                        i,
                    ) {
                        TileType::Floor
                    } else {
                        before[i]
                    }),
                self.rooms == old(self).rooms,
                self.height == old(self).height,
                self.revealed_tiles == old(self).revealed_tiles,
                self.visible_tiles == old(self).visible_tiles,
            decreases y_hi + 1 - y,
        {
            let mut x: i64 = x_lo as i64;
            while x <= x_hi as i64
                invariant
                    x_lo <= x,
                    x <= x_hi + 1 || x == x_lo,
                    y_lo <= y <= y_hi,
                    w == self.width == old(self).width,
                    0 < w,
                    len == self.tiles@.len() == before.len(),
                    len == self.width * self.height,
                    forall|i: int|
                        0 <= i < len ==> self.tiles@[i] == (if covers(
                            w as int,
                            x_lo as int,
                            x_hi as int,
                            y_lo as int,
                            y - 1,
                            i,
                        ) || covers(w as int, x_lo as int, x - 1, y as int, y as int, i) {
                            TileType::Floor
                        } else {
                            before[i]
                        }),
                    self.rooms == old(self).rooms,
                    self.height == old(self).height,
                    self.revealed_tiles == old(self).revealed_tiles,
                    self.visible_tiles == old(self).visible_tiles,
                decreases x_hi + 1 - x,
            {
                assert(-0x4000_0000_0000_0000 <= y * w <= 0x4000_0000_0000_0000) by (
                    nonlinear_arith)
                    requires
                        -0x8000_0000 <= y <= 0x7fff_ffff,
                        0 < w <= 0x7fff_ffff,
                ;
                assert(len <= 0x4000_0000_0000_0000) by (nonlinear_arith)
                    requires
                        len == self.width * self.height,
                        0 < self.width <= 0x7fff_ffff,
                        self.height <= 0x7fff_ffff,
                ;
                let idx: i64 = y * w + x;
                assert(idx == spec_index(w as int, x as int, y as int));
                if 0 <= idx && idx < len as i64 {
                    self.tiles.set(idx as usize, TileType::Floor);
                }
                x += 1;
            }
            y += 1;
        }
        assert(self.tiles@ =~= carve(
            before,
            w as int,
            x_lo as int,
            x_hi as int,
            y_lo as int,
            y_hi as int,
        ));
    }

    /// Opens up a room: every tile of the room but its left column and its
    /// top row becomes floor.
    pub fn apply_room_to_map(&mut self, room: &Rect)
        requires
            old(self).wf(),
            room.wf(),
            0 <= room.x1 + 1,
            room.x2 < old(self).width,
            0 <= room.y1 + 1,
            room.y2 < old(self).height,
        ensures
            final(self).tiles@ == carve_room(old(self).tiles@, old(self).width as int, *room),
            final(self).rooms == old(self).rooms,
            final(self).width == old(self).width,
            final(self).height == old(self).height,
            final(self).revealed_tiles == old(self).revealed_tiles,
            final(self).visible_tiles == old(self).visible_tiles,
    {
        self.dig(room.x1 + 1, room.x2, room.y1 + 1, room.y2);
    }

    /// Digs a corridor along row `y` from column `x1` to column `x2`, both
    /// included. A point whose index falls outside the tile vector is
    /// passed over.
    pub fn apply_horizontal_tunnel(&mut self, x1: i32, x2: i32, y: i32)
        requires
            old(self).wf(),
        ensures
            final(self).tiles@ == carve_horizontal(
                old(self).tiles@,
                old(self).width as int,
                x1 as int,
                x2 as int,
                y as int,
            ),
            final(self).rooms == old(self).rooms,
            final(self).width == old(self).width,
            final(self).height == old(self).height,
            final(self).revealed_tiles == old(self).revealed_tiles,
            final(self).visible_tiles == old(self).visible_tiles,
    {
        let lo: i32 = if x1 <= x2 { x1 } else { x2 };
        let hi: i32 = if x1 <= x2 { x2 } else { x1 };
        self.dig(lo, hi, y, y);
    }

    /// Digs a corridor along column `x` from row `y1` to row `y2`, both
    /// included. A point whose index falls outside the tile vector is
    /// passed over.
    pub fn apply_vertical_tunnel(&mut self, y1: i32, y2: i32, x: i32)
        requires
            old(self).wf(),
        ensures
            final(self).tiles@ == carve_vertical(
                old(self).tiles@,
                old(self).width as int,
                y1 as int,
                y2 as int,
                x as int,
            ),
            final(self).rooms == old(self).rooms,
            final(self).width == old(self).width,
            final(self).height == old(self).height,
            final(self).revealed_tiles == old(self).revealed_tiles,
            final(self).visible_tiles == old(self).visible_tiles,
    {
        let lo: i32 = if y1 <= y2 { y1 } else { y2 };
        let hi: i32 = if y1 <= y2 { y2 } else { y1 };
        self.dig(x, x, lo, hi);
    }

    /// What the tile `(x, y)` is made of.
    pub fn tile_at(&self, x: i32, y: i32) -> (t: TileType)
        requires
            self.wf(),
            self.contains(x as int, y as int),
        ensures
            t == self.tile(x as int, y as int),
    {
        self.tiles[self.xy_idx(x, y)]
    }

    /// Whether the tile `(x, y)` has ever been in the player's view.
    pub fn is_revealed(&self, x: i32, y: i32) -> (seen: bool)
        requires
            self.wf(),
            self.contains(x as int, y as int),
        ensures
            seen == self.revealed_tiles@[spec_index(self.width as int, x as int, y as int)],
    {
        self.revealed_tiles[self.xy_idx(x, y)]
    }

    /// Whether the tile `(x, y)` is in the player's view now.
    pub fn is_visible(&self, x: i32, y: i32) -> (seen: bool)
        requires
            self.wf(),
            self.contains(x as int, y as int),
        ensures
            seen == self.visible_tiles@[spec_index(self.width as int, x as int, y as int)],
    {
        self.visible_tiles[self.xy_idx(x, y)]
    }

    /// Light does not pass the tile with linear index `idx`.
    pub fn is_opaque(&self, idx: usize) -> (opaque: bool)
        requires
            idx < self.tiles.len(),
        ensures
            opaque == (self.tiles@[idx as int] == TileType::Wall),
    {
        self.tiles[idx] == TileType::Wall
    }
}

} // verus!
