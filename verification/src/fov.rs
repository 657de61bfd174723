//! Field of view: the shadow-casting engine of `rltk`, which reads the map
//! through the two traits implemented here.

use crate::components::{Coord, MAX_RANGE};
use crate::map::{TileMap, TileType};
use vstd::prelude::*;

verus! {

/// `rltk::Point`, made known as a type whose inside stays out of sight.
/// The sight engine asks the map for its dimensions as one.
#[verifier::external_type_specification]
#[verifier::external_body]
pub struct ExPoint(rltk::Point);

/// For each tile, whether light is stopped by it.
pub open spec fn opacity(tiles: Seq<TileType>) -> Seq<bool> {
    Seq::new(tiles.len(), |i: int| tiles[i] == TileType::Wall)
}

/// The points that `rltk::field_of_view` finds in view from `(x, y)` out
/// to `range`, on a grid `width` by `height` where tile `i` stops light
/// exactly if `opaque[i]`.
pub uninterp spec fn lit_from(
    x: int,
    y: int,
    range: int,
    width: int,
    height: int,
    opaque: Seq<bool>,
) -> Set<Coord>;

/// `p` is no more than `range` columns and no more than `range` rows away
/// from `(x, y)`.
pub open spec fn within_range(x: int, y: int, range: int, p: Coord) -> bool {
    -range <= p.x - x <= range && -range <= p.y - y <= range
}

/// The map can be handed to the sight engine, which computes tile indices
/// and the far ends of its scans in `i32`.
pub open spec fn sight_fits(map: &TileMap) -> bool {
    &&& map.width * map.height <= i32::MAX
    &&& map.width + MAX_RANGE <= i32::MAX
    &&& map.height + MAX_RANGE <= i32::MAX
}

/// What the sight engine asks of a map about its tiles: whether a tile
/// stops light. An index past the last tile counts as one that does.
impl rltk::BaseMap for TileMap {
    fn is_opaque(&self, idx: usize) -> (opaque: bool)
        ensures
            opaque == (if idx < self.tiles@.len() {
                opacity(self.tiles@)[idx as int]
            } else {
                true
            }),
    {
        if idx < self.tiles.len() {
            TileMap::is_opaque(self, idx)
        } else {
            true
        }
    }
}

/// What the sight engine asks of a map about its shape. From the
/// dimensions the engine works out by itself which points are on the map
/// and which index a point has, row by row.
impl rltk::Algorithm2D for TileMap {
    fn dimensions(&self) -> (size: rltk::Point)
        ensures
            size == point_at(self.width as int, self.height as int),
    {
        corner(self.width, self.height)
    }
}

/// The point that `Point::new` of `rltk` makes of the coordinates
/// `(x, y)`.
pub uninterp spec fn point_at(x: int, y: int) -> rltk::Point;

/// Calls `Point::new` of `rltk`, which makes the point with the given
/// coordinates. The point is of a type whose inside stays out of sight,
/// so the contract can only name it.
#[verifier::external_body]
fn corner(x: i32, y: i32) -> (p: rltk::Point)
    ensures
        p == point_at(x as int, y as int),
{
    rltk::Point::new(x, y)
}

/// Calls `rltk::field_of_view` from `(x, y)` with the map as the grid. The
/// engine collects the points in a hash set and hands them out in the
/// set's order, so the contract names the set of points and not their
/// order. It claims of the points what the engine's source shows: none
/// comes twice; the viewer's own tile is put in first of all; at the end
/// every point is dropped that is not inside the dimensions of the map;
/// and a point `(dx, dy)` away from the viewer is only ever put in if
/// `dx^2 + dy^2 <= range^2` or `(|dx| - 1/2)^2 + (|dy| - 1/2)^2 <= range^2`,
/// so none lies more than `range` rows or columns away. The engine squares
/// the range and adds it to coordinates in `i32`, computes indices in
/// `i32`, and starts by reserving room for `(2 * range)^2` points: hence
/// the bounds asked of the range and of the map.
#[verifier::external_body]
pub(crate) fn field_of_view(x: i32, y: i32, range: i32, map: &TileMap) -> (seen: Vec<Coord>)
    requires
        map.wf(),
        sight_fits(map),
        map.contains(x as int, y as int),
        0 <= range <= MAX_RANGE,
    ensures
        seen@.to_set() == lit_from(
            x as int,
            y as int,
            range as int,
            map.width as int,
            map.height as int,
            opacity(map.tiles@),
        ),
        seen@.no_duplicates(),
        seen@.contains(Coord { x, y }),
        forall|i: int|
            0 <= i < seen@.len() ==> map.contains(
                (#[trigger] seen@[i]).x as int,
                seen@[i].y as int,
            ) && within_range(x as int, y as int, range as int, seen@[i]),
{
    rltk::field_of_view(rltk::Point::new(x, y), range, map).iter().map(
        |p| Coord { x: p.x, y: p.y },
    ).collect()
}

} // verus!
