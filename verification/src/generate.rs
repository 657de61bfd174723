//! Dungeon generation: rooms that do not overlap, each joined to the room
//! before it by an L-shaped corridor.

use crate::dice::{fresh_rng, range, roll_dice};
use crate::map::{
    carve, carve_horizontal, carve_room, carve_vertical, covers, in_bounds, lemma_index_in_range,
    spec_index, TileMap, TileType,
};
use crate::paths::{
    floor_at, floor_connected, keeps_floor, lemma_column_connected, lemma_connected_monotone,
    lemma_connected_trans, lemma_row_connected,
};
use crate::rect::Rect;
use vstd::prelude::*;

verus! {

/// How many candidate rooms one generation draws.
pub const MAX_ROOMS: i32 = 30;

/// The least width and height of a candidate room.
pub const MIN_SIZE: i32 = 6;

/// The greatest width and height of a candidate room.
pub const MAX_SIZE: i32 = 10;

/// The room spans at least two tiles each way and leaves the outermost
/// ring of tiles of the grid alone.
pub open spec fn room_fits(width: int, height: int, room: Rect) -> bool {
    &&& 0 <= room.x1
    &&& room.x1 + 2 <= room.x2
    &&& room.x2 <= width - 2
    &&& 0 <= room.y1
    &&& room.y1 + 2 <= room.y2
    &&& room.y2 <= height - 2
}

/// No two rooms of the list overlap.
pub open spec fn rooms_apart(rooms: Seq<Rect>) -> bool {
    forall|j: int, k: int|
        0 <= j < k < rooms.len() ==> !(#[trigger] rooms[j]).spec_intersects(#[trigger] rooms[k])
}

/// The center of each room can be reached over floor from the center of
/// the room placed just before it.
pub open spec fn rooms_linked(
    tiles: Seq<TileType>,
    width: int,
    height: int,
    rooms: Seq<Rect>,
) -> bool {
    forall|k: int|
        0 <= k < rooms.len() - 1 ==> floor_connected(
            tiles,
            width,
            height,
            (#[trigger] rooms[k]).spec_center(),
            rooms[k + 1].spec_center(),
        )
}

/// Every tile that a room opens up is floor.
pub open spec fn rooms_open(tiles: Seq<TileType>, width: int, rooms: Seq<Rect>) -> bool {
    forall|k: int, x: int, y: int|
        0 <= k < rooms.len() && #[trigger] rooms[k].interior(x, y) ==> tiles[spec_index(
            width,
            x,
            y,
        )] == TileType::Floor
}

/// What holds of a grid and its rooms at every moment of a generation.
pub open spec fn dungeon_ok(
    tiles: Seq<TileType>,
    width: int,
    height: int,
    rooms: Seq<Rect>,
) -> bool {
    &&& width > 0
    &&& height > 0
    &&& tiles.len() == width * height
    &&& forall|k: int| 0 <= k < rooms.len() ==> room_fits(width, height, #[trigger] rooms[k])
    &&& rooms_apart(rooms)
    &&& rooms_linked(tiles, width, height, rooms)
    &&& rooms_open(tiles, width, rooms)
}

/// The candidate overlaps a room that is already there.
pub open spec fn blocked(rooms: Seq<Rect>, room: Rect) -> bool {
    exists|k: int| 0 <= k < rooms.len() && room.spec_intersects(#[trigger] rooms[k])
}

/// The tiles once `room` has been opened up and, unless it is the first
/// room, joined to the last room of `rooms`: along the old room's row and
/// then the new room's column, or along the old room's column and then the
/// new room's row.
pub open spec fn tiles_with_room(
    tiles: Seq<TileType>,
    width: int,
    rooms: Seq<Rect>,
    room: Rect,
    horizontal_first: bool,
) -> Seq<TileType> {
    let opened = carve_room(tiles, width, room);
    if rooms.len() == 0 {
        opened
    } else {
        let (new_x, new_y) = room.spec_center();
        let (prev_x, prev_y) = rooms.last().spec_center();
        if horizontal_first {
            carve_vertical(
                carve_horizontal(opened, width, prev_x, new_x, prev_y),
                width,
                prev_y,
                new_y,
                new_x,
            )
        } else {
            carve_horizontal(
                carve_vertical(opened, width, prev_y, new_y, prev_x),
                width,
                prev_x,
                new_x,
                new_y,
            )
        }
    }
}

/// The tiles once the rooms of `added` have been placed one after the
/// other on a map that had the rooms `before`, the corridor of each
/// starting with its horizontal leg exactly if its entry of
/// `horizontal_first` says so.
pub open spec fn tiles_with_rooms(
    tiles: Seq<TileType>,
    width: int,
    before: Seq<Rect>,
    added: Seq<Rect>,
    horizontal_first: Seq<bool>,
) -> Seq<TileType>
    decreases added.len(),
{
    if added.len() == 0 {
        tiles
    } else {
        tiles_with_room(
            tiles_with_rooms(
                tiles,
                width,
                before,
                added.drop_last(),
                horizontal_first.drop_last(),
            ),
            width,
            before + added.drop_last(),
            added.last(),
            horizontal_first.last(),
        )
    }
}

/// The tiles are what placing the rooms of `added`, in order, makes of
/// `tiles`, for some choice of the first leg of each corridor.
pub open spec fn made_of_rooms(
    tiles: Seq<TileType>,
    width: int,
    before: Seq<Rect>,
    added: Seq<Rect>,
    after: Seq<TileType>,
) -> bool {
    exists|horizontal_first: Seq<bool>|
        horizontal_first.len() == added.len() && after == #[trigger] tiles_with_rooms(
            tiles,
            width,
            before,
            added,
            horizontal_first,
        )
}

/// A grid of `width` by `height` tiles, all of them wall.
pub open spec fn solid_rock(width: int, height: int) -> Seq<TileType> {
    Seq::new((width * height) as nat, |i: int| TileType::Wall)
}

/// Carving only ever adds floor.
pub proof fn lemma_carve_keeps_floor(
    tiles: Seq<TileType>,
    width: int,
    x_lo: int,
    x_hi: int,
    y_lo: int,
    y_hi: int,
)
    ensures
        keeps_floor(tiles, carve(tiles, width, x_lo, x_hi, y_lo, y_hi)),
{
}

/// Every tile of the grid that lies in the box is floor after carving.
pub proof fn lemma_carve_opens(
    tiles: Seq<TileType>,
    width: int,
    height: int,
    x_lo: int,
    x_hi: int,
    y_lo: int,
    y_hi: int,
    x: int,
    y: int,
)
    requires
        tiles.len() == width * height,
        in_bounds(width, height, x, y),
        x_lo <= x <= x_hi,
        y_lo <= y <= y_hi,
    ensures
        floor_at(carve(tiles, width, x_lo, x_hi, y_lo, y_hi), width, height, x, y),
{
    lemma_index_in_range(width, height, x, y);
    assert(covers(width, x_lo, x_hi, y_lo, y_hi, spec_index(width, x, y)));
}

/// A tile of the grid that lies outside the box is left as it is by
/// carving, as long as the columns of the box are columns of the grid.
pub proof fn lemma_carve_frame(
    tiles: Seq<TileType>,
    width: int,
    height: int,
    x_lo: int,
    x_hi: int,
    y_lo: int,
    y_hi: int,
    x: int,
    y: int,
)
    requires
        tiles.len() == width * height,
        in_bounds(width, height, x, y),
        0 <= x_lo,
        x_hi < width,
        !(x_lo <= x <= x_hi && y_lo <= y <= y_hi),
    ensures
        carve(tiles, width, x_lo, x_hi, y_lo, y_hi)[spec_index(width, x, y)] == tiles[spec_index(
            width,
            x,
            y,
        )],
{
    lemma_index_in_range(width, height, x, y);
    let i = spec_index(width, x, y);
    if covers(width, x_lo, x_hi, y_lo, y_hi, i) {
        let (u, v) = choose|u: int, v: int|
            x_lo <= u <= x_hi && y_lo <= v <= y_hi && #[trigger] spec_index(width, u, v) == i;
        crate::map::lemma_index_injective(width, u, v, x, y);
    }
}

/// `(x, y)` lies on the outermost ring of tiles of the grid.
pub open spec fn on_edge(width: int, height: int, x: int, y: int) -> bool {
    in_bounds(width, height, x, y) && (x == 0 || x == width - 1 || y == 0 || y == height - 1)
}

/// The outermost ring of tiles is in `after` as it is in `before`.
pub open spec fn edge_kept(
    before: Seq<TileType>,
    after: Seq<TileType>,
    width: int,
    height: int,
) -> bool {
    forall|x: int, y: int|
        on_edge(width, height, x, y) ==> after[#[trigger] spec_index(width, x, y)]
            == before[spec_index(width, x, y)]
}

/// A floor tile stays a floor tile through changes that keep floor.
proof fn lemma_floor_kept(
    before: Seq<TileType>,
    after: Seq<TileType>,
    width: int,
    height: int,
    x: int,
    y: int,
)
    requires
        before.len() == width * height,
        keeps_floor(before, after),
        floor_at(before, width, height, x, y),
    ensures
        floor_at(after, width, height, x, y),
{
    lemma_index_in_range(width, height, x, y);
}

/// Placing a room that fits and overlaps no other keeps a dungeon in
/// order: rooms stay apart, stay open, and the new room is linked to the
/// one before it.
pub proof fn lemma_place_keeps_order(
    tiles: Seq<TileType>,
    width: int,
    height: int,
    rooms: Seq<Rect>,
    room: Rect,
    horizontal_first: bool,
)
    requires
        dungeon_ok(tiles, width, height, rooms),
        room_fits(width, height, room),
        !blocked(rooms, room),
    ensures
        dungeon_ok(
            tiles_with_room(tiles, width, rooms, room, horizontal_first),
            width,
            height,
            rooms.push(room),
        ),
        keeps_floor(tiles, tiles_with_room(tiles, width, rooms, room, horizontal_first)),
        edge_kept(
            tiles,
            tiles_with_room(tiles, width, rooms, room, horizontal_first),
            width,
            height,
        ),
{
    let after = tiles_with_room(tiles, width, rooms, room, horizontal_first);
    lemma_place_keeps_edge(tiles, width, height, rooms, room, horizontal_first);
    let all = rooms.push(room);
    let opened = carve_room(tiles, width, room);
    let (new_x, new_y) = room.spec_center();
    Rect::lemma_center_inside(room);
    lemma_carve_keeps_floor(tiles, width, room.x1 + 1, room.x2 as int, room.y1 + 1, room.y2 as int);
    assert(keeps_floor(opened, after) && keeps_floor(tiles, after)) by {
        if rooms.len() > 0 {
            let (prev_x, prev_y) = rooms.last().spec_center();
            if horizontal_first {
                let mid = carve_horizontal(opened, width, prev_x, new_x, prev_y);
                assert(keeps_floor(opened, mid));
                assert(keeps_floor(mid, after));
            } else {
                let mid = carve_vertical(opened, width, prev_y, new_y, prev_x);
                assert(keeps_floor(opened, mid));
                assert(keeps_floor(mid, after));
            }
        }
    }
    assert forall|k: int| 0 <= k < all.len() implies room_fits(
        width,
        height,
        #[trigger] all[k],
    ) by {
        if k < rooms.len() {
            assert(all[k] == rooms[k]);
        }
    }
    assert(rooms_apart(all)) by {
        assert forall|j: int, k: int| 0 <= j < k < all.len() implies !(#[trigger] all[j])
            .spec_intersects(#[trigger] all[k]) by {
            assert(all[j] == rooms[j]);
            if k < rooms.len() {
                assert(all[k] == rooms[k]);
            } else {
                assert(!room.spec_intersects(rooms[j]));
            }
        }
    }
    assert(rooms_open(after, width, all)) by {
        assert forall|k: int, x: int, y: int|
            0 <= k < all.len() && #[trigger] all[k].interior(x, y) implies after[spec_index(
            width,
            x,
            y,
        )] == TileType::Floor by {
            assert(room_fits(width, height, all[k]));
            if k < rooms.len() {
                assert(all[k] == rooms[k]);
                assert(rooms[k].interior(x, y));
                assert(floor_at(tiles, width, height, x, y));
                lemma_floor_kept(tiles, after, width, height, x, y);
            } else {
                lemma_carve_opens(
                    tiles,
                    width,
                    height,
                    room.x1 + 1,
                    room.x2 as int,
                    room.y1 + 1,
                    room.y2 as int,
                    x,
                    y,
                );
                lemma_floor_kept(opened, after, width, height, x, y);
            }
        }
    }
    assert(rooms_linked(after, width, height, all)) by {
        assert forall|k: int| 0 <= k < all.len() - 1 implies floor_connected(
            after,
            width,
            height,
            (#[trigger] all[k]).spec_center(),
            all[k + 1].spec_center(),
        ) by {
            assert(all[k] == rooms[k]);
            if k < rooms.len() - 1 {
                assert(all[k + 1] == rooms[k + 1]);
                lemma_connected_monotone(
                    tiles,
                    after,
                    width,
                    height,
                    rooms[k].spec_center(),
                    rooms[k + 1].spec_center(),
                );
            } else {
                assert(all[k + 1] == room);
                assert(rooms[k] == rooms.last());
                lemma_corridor_links(tiles, width, height, rooms, room, horizontal_first);
            }
        }
    }
}

/// Placing a room inside the border leaves the outermost ring of tiles
/// alone: neither the room nor its corridor reaches it.
proof fn lemma_place_keeps_edge(
    tiles: Seq<TileType>,
    width: int,
    height: int,
    rooms: Seq<Rect>,
    room: Rect,
    horizontal_first: bool,
)
    requires
        width > 0,
        height > 0,
        tiles.len() == width * height,
        rooms.len() > 0 ==> room_fits(width, height, rooms.last()),
        room_fits(width, height, room),
    ensures
        edge_kept(
            tiles,
            tiles_with_room(tiles, width, rooms, room, horizontal_first),
            width,
            height,
        ),
{
    let after = tiles_with_room(tiles, width, rooms, room, horizontal_first);
    let opened = carve_room(tiles, width, room);
    let (new_x, new_y) = room.spec_center();
    Rect::lemma_center_inside(room);
    assert forall|x: int, y: int| on_edge(width, height, x, y) implies after[#[trigger] spec_index(
        width,
        x,
        y,
    )] == tiles[spec_index(width, x, y)] by {
        lemma_carve_frame(
            tiles,
            width,
            height,
            room.x1 + 1,
            room.x2 as int,
            room.y1 + 1,
            room.y2 as int,
            x,
            y,
        );
        if rooms.len() > 0 {
            let (prev_x, prev_y) = rooms.last().spec_center();
            Rect::lemma_center_inside(rooms.last());
            let x_lo = vstd::math::min(prev_x, new_x);
            let x_hi = vstd::math::max(prev_x, new_x);
            let y_lo = vstd::math::min(prev_y, new_y);
            let y_hi = vstd::math::max(prev_y, new_y);
            if horizontal_first {
                let mid = carve_horizontal(opened, width, prev_x, new_x, prev_y);
                lemma_carve_frame(opened, width, height, x_lo, x_hi, prev_y, prev_y, x, y);
                lemma_carve_frame(mid, width, height, new_x, new_x, y_lo, y_hi, x, y);
            } else {
                let mid = carve_vertical(opened, width, prev_y, new_y, prev_x);
                lemma_carve_frame(opened, width, height, prev_x, prev_x, y_lo, y_hi, x, y);
                lemma_carve_frame(mid, width, height, x_lo, x_hi, new_y, new_y, x, y);
            }
        }
    }
}

/// The corridor dug for a new room joins its center to the center of the
/// last room.
proof fn lemma_corridor_links(
    tiles: Seq<TileType>,
    width: int,
    height: int,
    rooms: Seq<Rect>,
    room: Rect,
    horizontal_first: bool,
)
    requires
        width > 0,
        height > 0,
        tiles.len() == width * height,
        rooms.len() > 0,
        room_fits(width, height, rooms.last()),
        room_fits(width, height, room),
    ensures
        floor_connected(
            tiles_with_room(tiles, width, rooms, room, horizontal_first),
            width,
            height,
            rooms.last().spec_center(),
            room.spec_center(),
        ),
{
    let after = tiles_with_room(tiles, width, rooms, room, horizontal_first);
    let opened = carve_room(tiles, width, room);
    let (new_x, new_y) = room.spec_center();
    let (prev_x, prev_y) = rooms.last().spec_center();
    Rect::lemma_center_inside(room);
    Rect::lemma_center_inside(rooms.last());
    let x_lo = vstd::math::min(prev_x, new_x);
    let x_hi = vstd::math::max(prev_x, new_x);
    let y_lo = vstd::math::min(prev_y, new_y);
    let y_hi = vstd::math::max(prev_y, new_y);
    if horizontal_first {
        let mid = carve_horizontal(opened, width, prev_x, new_x, prev_y);
        assert(keeps_floor(mid, after));
        assert forall|x: int| x_lo <= x <= x_hi implies #[trigger] floor_at(
            after,
            width,
            height,
            x,
            prev_y,
        ) by {
            lemma_carve_opens(opened, width, height, x_lo, x_hi, prev_y, prev_y, x, prev_y);
            lemma_floor_kept(mid, after, width, height, x, prev_y);
        }
        assert forall|y: int| y_lo <= y <= y_hi implies #[trigger] floor_at(
            after,
            width,
            height,
            new_x,
            y,
        ) by {
            lemma_carve_opens(mid, width, height, new_x, new_x, y_lo, y_hi, new_x, y);
        }
        lemma_row_connected(after, width, height, prev_x, new_x, prev_y);
        lemma_column_connected(after, width, height, prev_y, new_y, new_x);
        lemma_connected_trans(
            after,
            width,
            height,
            (prev_x, prev_y),
            (new_x, prev_y),
            (new_x, new_y),
        );
    } else {
        let mid = carve_vertical(opened, width, prev_y, new_y, prev_x);
        assert(keeps_floor(mid, after));
        assert forall|y: int| y_lo <= y <= y_hi implies #[trigger] floor_at(
            after,
            width,
            height,
            prev_x,
            y,
        ) by {
            lemma_carve_opens(opened, width, height, prev_x, prev_x, y_lo, y_hi, prev_x, y);
            lemma_floor_kept(mid, after, width, height, prev_x, y);
        }
        assert forall|x: int| x_lo <= x <= x_hi implies #[trigger] floor_at(
            after,
            width,
            height,
            x,
            new_y,
        ) by {
            lemma_carve_opens(mid, width, height, x_lo, x_hi, new_y, new_y, x, new_y);
        }
        lemma_column_connected(after, width, height, prev_y, new_y, prev_x);
        lemma_row_connected(after, width, height, prev_x, new_x, new_y);
        lemma_connected_trans(
            after,
            width,
            height,
            (prev_x, prev_y),
            (prev_x, new_y),
            (new_x, new_y),
        );
    }
}

impl TileMap {
    /// The map is well formed and its rooms are in order: each inside the
    /// border, no two overlapping, each opened up, each linked over floor
    /// to the one placed before it.
    pub open spec fn dungeon_inv(&self) -> bool {
        &&& self.wf()
        &&& dungeon_ok(self.tiles@, self.width as int, self.height as int, self.rooms@)
    }

    /// The candidate overlaps none of the rooms placed so far.
    pub fn room_is_free(&self, room: &Rect) -> (free: bool)
        ensures
            free == !blocked(self.rooms@, *room),
    {
        let mut i: usize = 0;
        while i < self.rooms.len()
            invariant
                i <= self.rooms.len(),
                forall|k: int| 0 <= k < i ==> !room.spec_intersects(#[trigger] self.rooms@[k]),
            decreases self.rooms.len() - i,
        {
            if room.intersects(&self.rooms[i]) {
                return false;
            }
            i += 1;
        }
        true
    }

    /// Tries the candidate room with origin `(x, y)`, `w` wide and `h`
    /// high, which has to lie inside the border of the map. A candidate
    /// that overlaps a room already placed is dropped and the map stays as
    /// it was. Otherwise the room is opened up, joined to the last room by
    /// a corridor whose first leg is the horizontal one exactly if
    /// `horizontal_first`, and appended to the rooms.
    pub fn place_room(&mut self, x: i32, y: i32, w: i32, h: i32, horizontal_first: bool) -> (placed:
        bool)
        requires
            old(self).wf(),
            0 <= x && 2 <= w && x + w <= old(self).width - 2,
            0 <= y && 2 <= h && y + h <= old(self).height - 2,
        ensures
            placed == !blocked(
                old(self).rooms@,
                Rect::spec_new(x as int, y as int, w as int, h as int),
            ),
            !placed ==> final(self).tiles@ == old(self).tiles@,
            !placed ==> final(self).rooms@ == old(self).rooms@,
            placed ==> final(self).rooms@ == old(self).rooms@.push(
                Rect::spec_new(x as int, y as int, w as int, h as int),
            ),
            placed ==> final(self).tiles@ == tiles_with_room(
                old(self).tiles@,
                old(self).width as int,
                old(self).rooms@,
                Rect::spec_new(x as int, y as int, w as int, h as int),
                horizontal_first,
            ),
            final(self).wf(),
            final(self).width == old(self).width,
            final(self).height == old(self).height,
            final(self).revealed_tiles == old(self).revealed_tiles,
            final(self).visible_tiles == old(self).visible_tiles,
            keeps_floor(old(self).tiles@, final(self).tiles@),
            old(self).dungeon_inv() ==> final(self).dungeon_inv(),
            old(self).dungeon_inv() ==> edge_kept(
                old(self).tiles@,
                final(self).tiles@,
                old(self).width as int,
                old(self).height as int,
            ),
    {
        let new_room = Rect::new(x, y, w, h);
        if !self.room_is_free(&new_room) {
            return false;
        }
        proof {
            if self.dungeon_inv() {
                lemma_place_keeps_order(
                    self.tiles@,
                    self.width as int,
                    self.height as int,
                    self.rooms@,
                    new_room,
                    horizontal_first,
                );
            }
        }
        let ghost opened = carve_room(self.tiles@, self.width as int, new_room);
        let ghost start = self.tiles@;
        self.apply_room_to_map(&new_room);
        proof {
            lemma_carve_keeps_floor(
                start,
                self.width as int,
                new_room.x1 + 1,
                new_room.x2 as int,
                new_room.y1 + 1,
                new_room.y2 as int,
            );
        }
        if self.rooms.len() > 0 {
            let (new_x, new_y) = new_room.center();
            let (prev_x, prev_y) = self.rooms[self.rooms.len() - 1].center();
            if horizontal_first {
                self.apply_horizontal_tunnel(prev_x, new_x, prev_y);
                let ghost mid = self.tiles@;
                self.apply_vertical_tunnel(prev_y, new_y, new_x);
                assert(keeps_floor(opened, mid) && keeps_floor(mid, self.tiles@));
            } else {
                self.apply_vertical_tunnel(prev_y, new_y, prev_x);
                let ghost mid = self.tiles@;
                self.apply_horizontal_tunnel(prev_x, new_x, new_y);
                assert(keeps_floor(opened, mid) && keeps_floor(mid, self.tiles@));
            }
        }
        self.rooms.push(new_room);
        true
    }

    /// Draws `MAX_ROOMS` candidate rooms from `rng`, each `MIN_SIZE` to
    /// `MAX_SIZE` tiles wide and high and placed inside the border, and
    /// tries each in turn with `place_room`. Whatever is drawn, the rooms
    /// stay in order, the first candidate on a map without rooms is
    /// placed, and no floor is lost.
    pub fn generate_rooms_with(&mut self, rng: &mut rltk::RandomNumberGenerator)
        requires
            old(self).dungeon_inv(),
            old(self).width >= MAX_SIZE + 2,
            old(self).height >= MAX_SIZE + 2,
        ensures
            final(self).dungeon_inv(),
            rooms_apart(final(self).rooms@),
            rooms_linked(
                final(self).tiles@,
                final(self).width as int,
                final(self).height as int,
                final(self).rooms@,
            ),
            final(self).rooms@.len() >= 1,
            old(self).rooms@.len() <= final(self).rooms@.len() <= old(self).rooms@.len()
                + MAX_ROOMS,
            final(self).rooms@.subrange(0, old(self).rooms@.len() as int) == old(self).rooms@,
            forall|k: int|
                old(self).rooms@.len() <= k < final(self).rooms@.len() ==> {
                    let r = #[trigger] final(self).rooms@[k];
                    MIN_SIZE <= r.x2 - r.x1 <= MAX_SIZE && MIN_SIZE <= r.y2 - r.y1 <= MAX_SIZE
                },
            made_of_rooms(
                old(self).tiles@,
                old(self).width as int,
                old(self).rooms@,
                final(self).rooms@.subrange(
                    old(self).rooms@.len() as int,
                    final(self).rooms@.len() as int,
                ),
                final(self).tiles@,
            ),
            keeps_floor(old(self).tiles@, final(self).tiles@),
            edge_kept(
                old(self).tiles@,
                final(self).tiles@,
                old(self).width as int,
                old(self).height as int,
            ),
            final(self).width == old(self).width,
            final(self).height == old(self).height,
            final(self).revealed_tiles == old(self).revealed_tiles,
            final(self).visible_tiles == old(self).visible_tiles,
    {
        let ghost first_legs: Seq<bool> = Seq::empty();
        let ghost had = old(self).rooms@.len() as int;
        let mut attempt: i32 = 0;
        while attempt < MAX_ROOMS
            invariant
                0 <= attempt <= MAX_ROOMS,
                self.dungeon_inv(),
                self.width >= MAX_SIZE + 2,
                self.height >= MAX_SIZE + 2,
                attempt > 0 ==> self.rooms@.len() >= 1,
                old(self).rooms@.len() <= self.rooms@.len() <= old(self).rooms@.len() + attempt,
                self.rooms@.subrange(0, old(self).rooms@.len() as int) == old(self).rooms@,
                forall|k: int|
                    old(self).rooms@.len() <= k < self.rooms@.len() ==> {
                        let r = #[trigger] self.rooms@[k];
                        MIN_SIZE <= r.x2 - r.x1 <= MAX_SIZE && MIN_SIZE <= r.y2 - r.y1 <= MAX_SIZE
                    },
                had == old(self).rooms@.len(),
                first_legs.len() == self.rooms@.len() - had,
                self.tiles@ == tiles_with_rooms(
                    old(self).tiles@,
                    self.width as int,
                    old(self).rooms@,
                    self.rooms@.subrange(had, self.rooms@.len() as int),
                    first_legs,
                ),
                keeps_floor(old(self).tiles@, self.tiles@),
                edge_kept(old(self).tiles@, self.tiles@, self.width as int, self.height as int),
                self.width == old(self).width,
                self.height == old(self).height,
                self.revealed_tiles == old(self).revealed_tiles,
                self.visible_tiles == old(self).visible_tiles,
            decreases MAX_ROOMS - attempt,
        {
            let w: i32 = range(rng, MIN_SIZE, MAX_SIZE + 1);
            let h: i32 = range(rng, MIN_SIZE, MAX_SIZE + 1);
            let x: i32 = roll_dice(rng, 1, self.width - w - 1) - 1;
            let y: i32 = roll_dice(rng, 1, self.height - h - 1) - 1;
            let horizontal_first: bool = range(rng, 0, 2) == 1;
            let ghost before = self.rooms@;
            let placed = self.place_room(x, y, w, h, horizontal_first);
            proof {
                let room = Rect::spec_new(x as int, y as int, w as int, h as int);
                if placed {
                    let added = self.rooms@.subrange(had, self.rooms@.len() as int);
                    assert(added.drop_last() =~= before.subrange(had, before.len() as int));
                    assert(old(self).rooms@ + added.drop_last() =~= before);
                    assert(first_legs.push(horizontal_first).drop_last() =~= first_legs);
                    first_legs = first_legs.push(horizontal_first);
                    assert(self.rooms@.subrange(0, old(self).rooms@.len() as int)
                        =~= before.subrange(0, old(self).rooms@.len() as int));
                    assert forall|k: int|
                        old(self).rooms@.len() <= k < self.rooms@.len() implies {
                        let r = #[trigger] self.rooms@[k];
                        MIN_SIZE <= r.x2 - r.x1 <= MAX_SIZE && MIN_SIZE <= r.y2 - r.y1 <= MAX_SIZE
                    } by {
                        if k < before.len() {
                            assert(self.rooms@[k] == before[k]);
                        }
                    }
                } else {
                    assert(before.len() > 0) by {
                        if before.len() == 0 {
                            assert(!blocked(before, room));
                        }
                    }
                }
            }
            attempt += 1;
        }
    }

    /// A map of solid rock: every tile is wall, nothing has been seen and
    /// there are no rooms.
    pub fn solid(width: i32, height: i32) -> (map: TileMap)
        requires
            width > 0,
            height > 0,
            width * height <= usize::MAX,
        ensures
            map.dungeon_inv(),
            map.width == width,
            map.height == height,
            map.rooms@.len() == 0,
            map.tiles@ == solid_rock(width as int, height as int),
            forall|i: int| 0 <= i < map.revealed_tiles@.len() ==> !map.revealed_tiles@[i],
            forall|i: int| 0 <= i < map.visible_tiles@.len() ==> !map.visible_tiles@[i],
    {
        assert(0 < width * height) by (nonlinear_arith)
            requires
                width > 0,
                height > 0,
        ;
        let size: usize = width as usize * height as usize;
        let map = TileMap {
            tiles: vec![TileType::Wall; size],
            rooms: Vec::new(),
            width,
            height,
            revealed_tiles: vec![false; size],
            visible_tiles: vec![false; size],
        };
        assert(map.tiles@ =~= solid_rock(width as int, height as int));
        map
    }

    /// A dungeon of the given size with rooms and corridors drawn from
    /// `rng`. Whatever is drawn, there is at least one room, no two rooms
    /// overlap, and the center of each room can be reached over floor from
    /// the center of the room placed before it.
    pub fn generate(width: i32, height: i32, rng: &mut rltk::RandomNumberGenerator) -> (map:
        TileMap)
        requires
            width >= MAX_SIZE + 2,
            height >= MAX_SIZE + 2,
            width * height <= usize::MAX,
        ensures
            map.dungeon_inv(),
            map.width == width,
            map.height == height,
            1 <= map.rooms@.len() <= MAX_ROOMS,
            rooms_apart(map.rooms@),
            rooms_linked(map.tiles@, width as int, height as int, map.rooms@),
            forall|k: int|
                0 <= k < map.rooms@.len() ==> {
                    let r = #[trigger] map.rooms@[k];
                    MIN_SIZE <= r.x2 - r.x1 <= MAX_SIZE && MIN_SIZE <= r.y2 - r.y1 <= MAX_SIZE
                },
            made_of_rooms(
                solid_rock(width as int, height as int),
                width as int,
                Seq::empty(),
                map.rooms@,
                map.tiles@,
            ),
            forall|x: int, y: int|
                on_edge(width as int, height as int, x, y) ==> #[trigger] map.tile(x, y)
                    == TileType::Wall,
            forall|i: int| 0 <= i < map.revealed_tiles@.len() ==> !map.revealed_tiles@[i],
            forall|i: int| 0 <= i < map.visible_tiles@.len() ==> !map.visible_tiles@[i],
    {
        let mut map = TileMap::solid(width, height);
        let ghost rock = map.tiles@;
        let ghost none = map.rooms@;
        map.generate_rooms_with(rng);
        proof {
            assert(none =~= Seq::<Rect>::empty());
            assert(map.rooms@.subrange(0, map.rooms@.len() as int) =~= map.rooms@);
            assert forall|x: int, y: int|
                on_edge(width as int, height as int, x, y) implies #[trigger] map.tile(x, y)
                == TileType::Wall by {
                lemma_index_in_range(width as int, height as int, x, y);
                assert(map.tiles@[spec_index(width as int, x, y)] == rock[spec_index(
                    width as int,
                    x,
                    y,
                )]);
            }
        }
        map
    }

    /// The dungeon the game is played in: 80 tiles by 50, generated from
    /// a generator seeded by the system.
    pub fn new_map_rooms_and_corridoors() -> (map: TileMap)
        ensures
            map.dungeon_inv(),
            map.width == 80,
            map.height == 50,
            1 <= map.rooms@.len() <= MAX_ROOMS,
            rooms_apart(map.rooms@),
            rooms_linked(map.tiles@, 80, 50, map.rooms@),
            forall|k: int|
                0 <= k < map.rooms@.len() ==> {
                    let r = #[trigger] map.rooms@[k];
                    MIN_SIZE <= r.x2 - r.x1 <= MAX_SIZE && MIN_SIZE <= r.y2 - r.y1 <= MAX_SIZE
                },
            made_of_rooms(solid_rock(80, 50), 80, Seq::empty(), map.rooms@, map.tiles@),
            forall|x: int, y: int|
                on_edge(80, 50, x, y) ==> #[trigger] map.tile(x, y) == TileType::Wall,
            forall|i: int| 0 <= i < map.revealed_tiles@.len() ==> !map.revealed_tiles@[i],
            forall|i: int| 0 <= i < map.visible_tiles@.len() ==> !map.visible_tiles@[i],
    {
        let mut rng = fresh_rng();
        TileMap::generate(80, 50, &mut rng)
    }

    /// Turns the tile `(x, y)` to wall, unless it is the tile
    /// `(keep_x, keep_y)`.
    pub fn place_wall_unless(&mut self, x: i32, y: i32, keep_x: i32, keep_y: i32)
        requires
            old(self).wf(),
            old(self).contains(x as int, y as int),
            old(self).contains(keep_x as int, keep_y as int),
        ensures
            final(self).tiles@ == (if x == keep_x && y == keep_y {
                old(self).tiles@
            } else {
                old(self).tiles@.update(
                    spec_index(old(self).width as int, x as int, y as int),
                    TileType::Wall,
                )
            }),
            final(self).rooms == old(self).rooms,
            final(self).width == old(self).width,
            final(self).height == old(self).height,
            final(self).revealed_tiles == old(self).revealed_tiles,
            final(self).visible_tiles == old(self).visible_tiles,
    {
        let idx = self.xy_idx(x, y);
        if idx != self.xy_idx(keep_x, keep_y) {
            self.tiles.set(idx, TileType::Wall);
        } else {
            proof {
                crate::map::lemma_index_injective(
                    self.width as int,
                    x as int,
                    y as int,
                    keep_x as int,
                    keep_y as int,
                );
            }
        }
    }

    /// An open hall, 80 tiles by 50, for trying things out: one room as
    /// large as the map, walls all around the edge, and up to 400 walls
    /// dropped at random inside. Whatever is drawn, the tile `(40, 25)`
    /// stays floor.
    pub fn new_map_test() -> (map: TileMap)
        ensures
            map.wf(),
            map.width == 80,
            map.height == 50,
            map.rooms@ == seq![Rect::spec_new(0, 0, 80, 50)],
            forall|x: int, y: int|
                0 <= x < 80 && 0 <= y < 50 && (x == 0 || x == 79 || y == 0 || y == 49)
                    ==> #[trigger] map.tile(x, y) == TileType::Wall,
            map.tile(40, 25) == TileType::Floor,
            forall|i: int| 0 <= i < map.revealed_tiles@.len() ==> !map.revealed_tiles@[i],
            forall|i: int| 0 <= i < map.visible_tiles@.len() ==> !map.visible_tiles@[i],
    {
        let size: usize = 4000;
        let mut rooms: Vec<Rect> = Vec::new();
        rooms.push(Rect::new(0, 0, 80, 50));
        let mut map = TileMap {
            tiles: vec![TileType::Floor; size],
            rooms,
            width: 80,
            height: 50,
            revealed_tiles: vec![false; size],
            visible_tiles: vec![false; size],
        };
        assert(map.rooms@ =~= seq![Rect::spec_new(0, 0, 80, 50)]);
        let ghost rooms_then = map.rooms;
        let ghost revealed_then = map.revealed_tiles;
        let ghost visible_then = map.visible_tiles;

        let mut x: i32 = 0;
        while x < 80
            invariant
                0 <= x <= 80,
                map.wf(),
                map.width == 80,
                map.height == 50,
                map.rooms == rooms_then,
                map.revealed_tiles == revealed_then,
                map.visible_tiles == visible_then,
                map.tile(40, 25) == TileType::Floor,
                forall|u: int, v: int|
                    0 <= u < x && (v == 0 || v == 49)
                        ==> map.tiles@[#[trigger] spec_index(80, u, v)] == TileType::Wall,
            decreases 80 - x,
        {
            let top = map.xy_idx(x, 0);
            let bottom = map.xy_idx(x, 49);
            map.tiles.set(top, TileType::Wall);
            map.tiles.set(bottom, TileType::Wall);
            x += 1;
        }

        let mut y: i32 = 0;
        while y < 50
            invariant
                0 <= y <= 50,
                map.wf(),
                map.width == 80,
                map.height == 50,
                map.rooms == rooms_then,
                map.revealed_tiles == revealed_then,
                map.visible_tiles == visible_then,
                map.tile(40, 25) == TileType::Floor,
                forall|u: int, v: int|
                    0 <= u < 80 && (v == 0 || v == 49)
                        ==> map.tiles@[#[trigger] spec_index(80, u, v)] == TileType::Wall,
                forall|u: int, v: int|
                    0 <= v < y && (u == 0 || u == 79)
                        ==> map.tiles@[#[trigger] spec_index(80, u, v)] == TileType::Wall,
            decreases 50 - y,
        {
            let left = map.xy_idx(0, y);
            let right = map.xy_idx(79, y);
            map.tiles.set(left, TileType::Wall);
            map.tiles.set(right, TileType::Wall);
            y += 1;
        }

        let mut rng = fresh_rng();
        let mut i: i32 = 0;
        while i < 400
            invariant
                0 <= i <= 400,
                map.wf(),
                map.width == 80,
                map.height == 50,
                map.rooms == rooms_then,
                map.revealed_tiles == revealed_then,
                map.visible_tiles == visible_then,
                map.tile(40, 25) == TileType::Floor,
                forall|u: int, v: int|
                    0 <= u < 80 && 0 <= v < 50 && (u == 0 || u == 79 || v == 0 || v == 49)
                        ==> map.tiles@[#[trigger] spec_index(80, u, v)] == TileType::Wall,
            decreases 400 - i,
        {
            let x: i32 = roll_dice(&mut rng, 1, 79);
            let y: i32 = roll_dice(&mut rng, 1, 49);
            map.place_wall_unless(x, y, 40, 25);
            i += 1;
        }
        map
    }

    /// Fills the map with rooms and corridors, drawing from a generator
    /// seeded by the system.
    pub fn generate_rooms(&mut self)
        requires
            old(self).dungeon_inv(),
            old(self).width >= MAX_SIZE + 2,
            old(self).height >= MAX_SIZE + 2,
        ensures
            final(self).dungeon_inv(),
            rooms_apart(final(self).rooms@),
            rooms_linked(
                final(self).tiles@,
                final(self).width as int,
                final(self).height as int,
                final(self).rooms@,
            ),
            final(self).rooms@.len() >= 1,
            old(self).rooms@.len() <= final(self).rooms@.len() <= old(self).rooms@.len()
                + MAX_ROOMS,
            final(self).rooms@.subrange(0, old(self).rooms@.len() as int) == old(self).rooms@,
            forall|k: int|
                old(self).rooms@.len() <= k < final(self).rooms@.len() ==> {
                    let r = #[trigger] final(self).rooms@[k];
                    MIN_SIZE <= r.x2 - r.x1 <= MAX_SIZE && MIN_SIZE <= r.y2 - r.y1 <= MAX_SIZE
                },
            made_of_rooms(
                old(self).tiles@,
                old(self).width as int,
                old(self).rooms@,
                final(self).rooms@.subrange(
                    old(self).rooms@.len() as int,
                    final(self).rooms@.len() as int,
                ),
                final(self).tiles@,
            ),
            keeps_floor(old(self).tiles@, final(self).tiles@),
            edge_kept(
                old(self).tiles@,
                final(self).tiles@,
                old(self).width as int,
                old(self).height as int,
            ),
            final(self).width == old(self).width,
            final(self).height == old(self).height,
            final(self).revealed_tiles == old(self).revealed_tiles,
            final(self).visible_tiles == old(self).visible_tiles,
    {
        let mut rng = fresh_rng();
        self.generate_rooms_with(&mut rng);
    }
}

} // verus!
