//! Walkable paths over a tile grid, and the facts about them that map
//! generation rests on.

use crate::map::{in_bounds, spec_index, TileType};
use vstd::prelude::*;

verus! {

/// Two points are one step apart along one axis.
pub open spec fn adjacent(a: (int, int), b: (int, int)) -> bool {
    ||| a.0 == b.0 && (a.1 - b.1 == 1 || b.1 - a.1 == 1)
    ||| a.1 == b.1 && (a.0 - b.0 == 1 || b.0 - a.0 == 1)
}

/// `p` is a tile of the grid, and it is floor.
pub open spec fn is_floor(tiles: Seq<TileType>, width: int, height: int, p: (int, int)) -> bool {
    in_bounds(width, height, p.0, p.1) && tiles[spec_index(width, p.0, p.1)] == TileType::Floor
}

/// The tile `(x, y)` is a tile of the grid, and it is floor.
pub open spec fn floor_at(tiles: Seq<TileType>, width: int, height: int, x: int, y: int) -> bool {
    is_floor(tiles, width, height, (x, y))
}

/// `path` is a walk over floor tiles, each step going to an adjacent tile.
pub open spec fn is_floor_path(
    tiles: Seq<TileType>,
    width: int,
    height: int,
    path: Seq<(int, int)>,
) -> bool {
    &&& path.len() > 0
    &&& forall|k: int| 0 <= k < path.len() ==> is_floor(tiles, width, height, #[trigger] path[k])
    &&& forall|k: int| 0 <= k < path.len() - 1 ==> adjacent(#[trigger] path[k], path[k + 1])
}

/// `path` is a walk over floor tiles that starts at `a` and ends at `b`.
pub open spec fn joins(
    tiles: Seq<TileType>,
    width: int,
    height: int,
    path: Seq<(int, int)>,
    a: (int, int),
    b: (int, int),
) -> bool {
    is_floor_path(tiles, width, height, path) && path[0] == a && path.last() == b
}

/// One can walk from `a` to `b` over floor tiles alone.
pub open spec fn floor_connected(
    tiles: Seq<TileType>,
    width: int,
    height: int,
    a: (int, int),
    b: (int, int),
) -> bool {
    exists|path: Seq<(int, int)>| joins(tiles, width, height, path, a, b)
}

/// Every floor tile of `before` is floor in `after` too.
pub open spec fn keeps_floor(before: Seq<TileType>, after: Seq<TileType>) -> bool {
    &&& before.len() == after.len()
    &&& forall|i: int|
        0 <= i < before.len() && before[i] == TileType::Floor ==> #[trigger] after[i]
            == TileType::Floor
}

/// A floor tile is connected to itself.
pub proof fn lemma_connected_refl(tiles: Seq<TileType>, width: int, height: int, a: (int, int))
    requires
        is_floor(tiles, width, height, a),
    ensures
        floor_connected(tiles, width, height, a, a),
{
    let path = seq![a];
    assert(joins(tiles, width, height, path, a, a));
}

/// A walk can be taken one step further onto an adjacent floor tile.
pub proof fn lemma_connected_step(
    tiles: Seq<TileType>,
    width: int,
    height: int,
    a: (int, int),
    b: (int, int),
    c: (int, int),
)
    requires
        floor_connected(tiles, width, height, a, b),
        adjacent(b, c),
        is_floor(tiles, width, height, c),
    ensures
        floor_connected(tiles, width, height, a, c),
{
    let path = choose|path: Seq<(int, int)>| joins(tiles, width, height, path, a, b);
    let longer = path.push(c);
    assert forall|k: int| 0 <= k < longer.len() implies is_floor(
        tiles,
        width,
        height,
        #[trigger] longer[k],
    ) by {
        if k < path.len() {
            assert(longer[k] == path[k]);
        }
    }
    assert forall|k: int| 0 <= k < longer.len() - 1 implies adjacent(
        #[trigger] longer[k],
        longer[k + 1],
    ) by {
        if k < path.len() - 1 {
            assert(longer[k] == path[k]);
            assert(longer[k + 1] == path[k + 1]);
        }
    }
    assert(joins(tiles, width, height, longer, a, c));
}

/// Two walks that meet make one walk.
pub proof fn lemma_connected_trans(
    tiles: Seq<TileType>,
    width: int,
    height: int,
    a: (int, int),
    b: (int, int),
    c: (int, int),
)
    requires
        floor_connected(tiles, width, height, a, b),
        floor_connected(tiles, width, height, b, c),
    ensures
        floor_connected(tiles, width, height, a, c),
{
    let first = choose|path: Seq<(int, int)>| joins(tiles, width, height, path, a, b);
    let second = choose|path: Seq<(int, int)>| joins(tiles, width, height, path, b, c);
    let rest = second.subrange(1, second.len() as int);
    let whole = first + rest;
    assert forall|k: int| 0 <= k < whole.len() implies is_floor(
        tiles,
        width,
        height,
        #[trigger] whole[k],
    ) by {
        if k < first.len() {
            assert(whole[k] == first[k]);
        } else {
            assert(whole[k] == second[k - first.len() + 1]);
        }
    }
    assert forall|k: int| 0 <= k < whole.len() - 1 implies adjacent(
        #[trigger] whole[k],
        whole[k + 1],
    ) by {
        if k < first.len() - 1 {
            assert(whole[k] == first[k]);
            assert(whole[k + 1] == first[k + 1]);
        } else if k == first.len() - 1 {
            assert(whole[k] == second[0]);
            assert(whole[k + 1] == second[1]);
        } else {
            let j = k - first.len() + 1;
            assert(whole[k] == second[j]);
            assert(whole[k + 1] == second[j + 1]);
        }
    }
    if rest.len() == 0 {
        assert(whole.last() == first.last());
    } else {
        assert(whole.last() == second.last());
    }
    assert(whole[0] == first[0]);
    assert(joins(tiles, width, height, whole, a, c));
}

/// A walk stays a walk when more tiles become floor.
pub proof fn lemma_connected_monotone(
    before: Seq<TileType>,
    after: Seq<TileType>,
    width: int,
    height: int,
    a: (int, int),
    b: (int, int),
)
    requires
        floor_connected(before, width, height, a, b),
        keeps_floor(before, after),
        before.len() == width * height,
    ensures
        floor_connected(after, width, height, a, b),
{
    let path = choose|path: Seq<(int, int)>| joins(before, width, height, path, a, b);
    assert forall|k: int| 0 <= k < path.len() implies is_floor(
        after,
        width,
        height,
        #[trigger] path[k],
    ) by {
        assert(is_floor(before, width, height, path[k]));
        crate::map::lemma_index_in_range(width, height, path[k].0, path[k].1);
    }
    assert(joins(after, width, height, path, a, b));
}

/// The two ends of a run of floor tiles along a row are connected.
pub proof fn lemma_row_connected(
    tiles: Seq<TileType>,
    width: int,
    height: int,
    x_from: int,
    x_to: int,
    y: int,
)
    requires
        forall|x: int|
            vstd::math::min(x_from, x_to) <= x <= vstd::math::max(x_from, x_to)
                ==> #[trigger] floor_at(tiles, width, height, x, y),
    ensures
        floor_connected(tiles, width, height, (x_from, y), (x_to, y)),
    decreases vstd::math::abs(x_to - x_from),
{
    if x_from == x_to {
        assert(floor_at(tiles, width, height, x_from, y));
        lemma_connected_refl(tiles, width, height, (x_from, y));
    } else {
        let before: int = if x_from < x_to {
            x_to - 1
        } else {
            x_to + 1
        };
        lemma_row_connected(tiles, width, height, x_from, before, y);
        assert(floor_at(tiles, width, height, x_to, y));
        lemma_connected_step(tiles, width, height, (x_from, y), (before, y), (x_to, y));
    }
}

/// The two ends of a run of floor tiles along a column are connected.
pub proof fn lemma_column_connected(
    tiles: Seq<TileType>,
    width: int,
    height: int,
    y_from: int,
    y_to: int,
    x: int,
)
    requires
        forall|y: int|
            vstd::math::min(y_from, y_to) <= y <= vstd::math::max(y_from, y_to)
                ==> #[trigger] floor_at(tiles, width, height, x, y),
    ensures
        floor_connected(tiles, width, height, (x, y_from), (x, y_to)),
    decreases vstd::math::abs(y_to - y_from),
{
    if y_from == y_to {
        assert(floor_at(tiles, width, height, x, y_from));
        lemma_connected_refl(tiles, width, height, (x, y_from));
    } else {
        let before: int = if y_from < y_to {
            y_to - 1
        } else {
            y_to + 1
        };
        lemma_column_connected(tiles, width, height, y_from, before, x);
        assert(floor_at(tiles, width, height, x, y_to));
        lemma_connected_step(tiles, width, height, (x, y_from), (x, before), (x, y_to));
    }
}

} // verus!
