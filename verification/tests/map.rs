use roguelike::generate::{MAX_ROOMS, MAX_SIZE, MIN_SIZE};
use roguelike::map::{TileMap, TileType};
use roguelike::rect::Rect;

fn floor_at(map: &TileMap, x: i32, y: i32) -> bool {
    map.tiles[map.xy_idx(x, y)] == TileType::Floor
}

fn floor_count(map: &TileMap) -> usize {
    map.tiles.iter().filter(|t| **t == TileType::Floor).count()
}

fn reachable(map: &TileMap, from: (i32, i32), to: (i32, i32)) -> bool {
    if !floor_at(map, from.0, from.1) || !floor_at(map, to.0, to.1) {
        return false;
    }
    let mut seen = vec![false; map.tiles.len()];
    let mut open = vec![from];
    seen[map.xy_idx(from.0, from.1)] = true;
    while let Some((x, y)) = open.pop() {
        if (x, y) == to {
            return true;
        }
        for (dx, dy) in [(1, 0), (-1, 0), (0, 1), (0, -1)] {
            let (nx, ny) = (x + dx, y + dy);
            if nx < 0 || ny < 0 || nx >= map.width || ny >= map.height {
                continue;
            }
            let idx = map.xy_idx(nx, ny);
            if !seen[idx] && map.tiles[idx] == TileType::Floor {
                seen[idx] = true;
                open.push((nx, ny));
            }
        }
    }
    false
}

#[test]
fn xy_idx_is_row_major() {
    let map = TileMap::solid(80, 50);
    assert_eq!(map.xy_idx(0, 0), 0);
    assert_eq!(map.xy_idx(1, 0), 1);
    assert_eq!(map.xy_idx(0, 1), 80);
    assert_eq!(map.xy_idx(40, 25), 2040);
    assert_eq!(map.xy_idx(79, 49), 3999);
}

#[test]
fn idx_xy_undoes_xy_idx_on_every_tile() {
    let map = TileMap::solid(13, 7);
    for y in 0..7 {
        for x in 0..13 {
            let idx = map.xy_idx(x, y);
            assert_eq!(map.idx_xy(idx), (x, y));
        }
    }
    for idx in 0..(13 * 7) {
        let (x, y) = map.idx_xy(idx);
        assert_eq!(map.xy_idx(x, y), idx);
    }
}

#[test]
fn solid_map_is_all_wall_and_unseen() {
    let map = TileMap::solid(20, 15);
    assert_eq!(map.width, 20);
    assert_eq!(map.height, 15);
    assert_eq!(map.tiles.len(), 300);
    assert_eq!(map.revealed_tiles.len(), 300);
    assert_eq!(map.visible_tiles.len(), 300);
    assert!(map.tiles.iter().all(|t| *t == TileType::Wall));
    assert!(map.revealed_tiles.iter().all(|r| !*r));
    assert!(map.visible_tiles.iter().all(|v| !*v));
    assert!(map.rooms.is_empty());
}

#[test]
fn wall_is_opaque_and_floor_is_not() {
    let mut map = TileMap::solid(12, 12);
    map.apply_room_to_map(&Rect::new(1, 1, 4, 4));
    assert!(map.is_opaque(map.xy_idx(0, 0)));
    assert!(map.is_opaque(map.xy_idx(1, 1)));
    assert!(!map.is_opaque(map.xy_idx(2, 2)));
    assert!(!map.is_opaque(map.xy_idx(5, 5)));
    assert!(map.is_opaque(map.xy_idx(6, 6)));
}

#[test]
fn a_room_opens_all_but_its_left_column_and_top_row() {
    let mut map = TileMap::solid(12, 12);
    map.apply_room_to_map(&Rect::new(2, 3, 4, 3));
    for y in 0..12 {
        for x in 0..12 {
            let inside = 3 <= x && x <= 6 && 4 <= y && y <= 6;
            assert_eq!(floor_at(&map, x, y), inside, "tile ({}, {})", x, y);
        }
    }
    assert_eq!(floor_count(&map), 12);
    assert!(map.rooms.is_empty());
}

#[test]
fn horizontal_tunnel_covers_both_ends_in_either_direction() {
    let mut forth = TileMap::solid(12, 12);
    forth.apply_horizontal_tunnel(2, 7, 5);
    let mut back = TileMap::solid(12, 12);
    back.apply_horizontal_tunnel(7, 2, 5);
    for y in 0..12 {
        for x in 0..12 {
            let on = y == 5 && 2 <= x && x <= 7;
            assert_eq!(floor_at(&forth, x, y), on);
            assert_eq!(floor_at(&back, x, y), on);
        }
    }
}

#[test]
fn vertical_tunnel_covers_both_ends_in_either_direction() {
    let mut forth = TileMap::solid(12, 12);
    forth.apply_vertical_tunnel(3, 9, 4);
    let mut back = TileMap::solid(12, 12);
    back.apply_vertical_tunnel(9, 3, 4);
    for y in 0..12 {
        for x in 0..12 {
            let on = x == 4 && 3 <= y && y <= 9;
            assert_eq!(floor_at(&forth, x, y), on);
            assert_eq!(floor_at(&back, x, y), on);
        }
    }
}

#[test]
fn a_tunnel_of_one_tile_opens_that_tile() {
    let mut map = TileMap::solid(12, 12);
    map.apply_horizontal_tunnel(4, 4, 4);
    assert!(floor_at(&map, 4, 4));
    assert_eq!(floor_count(&map), 1);
}

#[test]
fn a_tunnel_passes_over_indices_outside_the_tiles() {
    let mut map = TileMap::solid(12, 12);
    map.apply_vertical_tunnel(-3, 20, 5);
    for y in 0..12 {
        assert!(floor_at(&map, 5, y));
    }
    assert_eq!(floor_count(&map), 12);

    let mut map = TileMap::solid(12, 12);
    map.apply_horizontal_tunnel(0, 5, 40);
    assert_eq!(floor_count(&map), 0);
    map.apply_horizontal_tunnel(0, 5, -40);
    assert_eq!(floor_count(&map), 0);
}

#[test]
fn the_first_tile_can_be_dug() {
    let mut map = TileMap::solid(12, 12);
    map.apply_horizontal_tunnel(0, 1, 0);
    assert!(floor_at(&map, 0, 0));
    assert!(floor_at(&map, 1, 0));
}

#[test]
fn first_room_is_placed_without_a_corridor() {
    let mut map = TileMap::solid(40, 30);
    assert!(map.place_room(2, 3, 6, 7, true));
    assert_eq!(map.rooms.len(), 1);
    assert_eq!(map.rooms[0], Rect::new(2, 3, 6, 7));
    assert_eq!(floor_count(&map), 6 * 7);
}

#[test]
fn an_overlapping_candidate_is_dropped_and_nothing_changes() {
    let mut map = TileMap::solid(40, 30);
    assert!(map.place_room(2, 3, 6, 7, true));
    let tiles = map.tiles.clone();
    assert!(!map.place_room(8, 3, 6, 6, false));
    assert!(!map.place_room(4, 5, 6, 6, false));
    assert_eq!(map.rooms.len(), 1);
    assert_eq!(map.tiles, tiles);
    assert!(map.room_is_free(&Rect::new(9, 3, 6, 6)));
    assert!(!map.room_is_free(&Rect::new(8, 3, 6, 6)));
}

#[test]
fn second_room_is_joined_horizontal_leg_first() {
    let mut map = TileMap::solid(40, 30);
    assert!(map.place_room(2, 2, 6, 6, true));
    assert!(map.place_room(20, 15, 8, 6, true));
    let (px, py) = map.rooms[0].center();
    let (nx, ny) = map.rooms[1].center();
    assert_eq!((px, py), (5, 5));
    assert_eq!((nx, ny), (24, 18));
    for x in px..=nx {
        assert!(floor_at(&map, x, py));
    }
    for y in py..=ny {
        assert!(floor_at(&map, nx, y));
    }
    assert!(!floor_at(&map, px, ny));
    assert!(reachable(&map, (px, py), (nx, ny)));
    assert_eq!(floor_count(&map), 36 + 48 + 16 + 10);
}

#[test]
fn second_room_is_joined_vertical_leg_first() {
    let mut map = TileMap::solid(40, 30);
    assert!(map.place_room(2, 2, 6, 6, false));
    assert!(map.place_room(20, 15, 8, 6, false));
    let (px, py) = map.rooms[0].center();
    let (nx, ny) = map.rooms[1].center();
    for y in py..=ny {
        assert!(floor_at(&map, px, y));
    }
    for x in px..=nx {
        assert!(floor_at(&map, x, ny));
    }
    assert!(!floor_at(&map, nx, py));
    assert!(reachable(&map, (px, py), (nx, ny)));
}

#[test]
fn a_room_to_the_upper_left_is_joined_too() {
    let mut map = TileMap::solid(40, 30);
    assert!(map.place_room(25, 18, 7, 7, true));
    assert!(map.place_room(1, 1, 6, 6, true));
    let (px, py) = map.rooms[0].center();
    let (nx, ny) = map.rooms[1].center();
    assert!(nx < px && ny < py);
    for x in nx..=px {
        assert!(floor_at(&map, x, py));
    }
    for y in ny..=py {
        assert!(floor_at(&map, nx, y));
    }
    assert!(reachable(&map, (px, py), (nx, ny)));
}

fn check_dungeon(map: &TileMap) {
    assert!(!map.rooms.is_empty());
    assert!(map.rooms.len() <= MAX_ROOMS as usize);
    for (k, room) in map.rooms.iter().enumerate() {
        assert!(MIN_SIZE <= room.x2 - room.x1 && room.x2 - room.x1 <= MAX_SIZE);
        assert!(MIN_SIZE <= room.y2 - room.y1 && room.y2 - room.y1 <= MAX_SIZE);
        assert!(0 <= room.x1 && room.x2 <= map.width - 2);
        assert!(0 <= room.y1 && room.y2 <= map.height - 2);
        for other in &map.rooms[..k] {
            assert!(!room.intersects(other));
            assert!(!other.intersects(room));
        }
        for y in room.y1 + 1..=room.y2 {
            for x in room.x1 + 1..=room.x2 {
                assert!(floor_at(map, x, y));
            }
        }
    }
    for pair in map.rooms.windows(2) {
        assert!(reachable(map, pair[0].center(), pair[1].center()));
    }
    for x in 0..map.width {
        assert!(!floor_at(map, x, 0));
        assert!(!floor_at(map, x, map.height - 1));
    }
    for y in 0..map.height {
        assert!(!floor_at(map, 0, y));
        assert!(!floor_at(map, map.width - 1, y));
    }
    assert!(map.revealed_tiles.iter().all(|r| !*r));
    assert!(map.visible_tiles.iter().all(|v| !*v));
}

#[test]
fn generated_rooms_are_apart_and_linked_for_many_seeds() {
    let mut fewest = usize::MAX;
    for seed in 0..40u64 {
        let mut rng = rltk::RandomNumberGenerator::seeded(seed);
        let map = TileMap::generate(80, 50, &mut rng);
        assert_eq!((map.width, map.height), (80, 50));
        assert_eq!(map.tiles.len(), 4000);
        check_dungeon(&map);
        fewest = fewest.min(map.rooms.len());
    }
    assert!(fewest < MAX_ROOMS as usize);
}

#[test]
fn room_sizes_reach_both_ends_of_their_range() {
    let mut least = i32::MAX;
    let mut most = i32::MIN;
    for seed in 0..40u64 {
        let mut rng = rltk::RandomNumberGenerator::seeded(seed);
        let map = TileMap::generate(80, 50, &mut rng);
        for room in &map.rooms {
            for side in [room.x2 - room.x1, room.y2 - room.y1] {
                least = least.min(side);
                most = most.max(side);
            }
        }
    }
    assert_eq!((least, most), (MIN_SIZE, MAX_SIZE));
}

#[test]
fn generation_draws_more_than_one_room_and_more_than_one_size() {
    let mut rng = rltk::RandomNumberGenerator::seeded(7);
    let map = TileMap::generate(80, 50, &mut rng);
    assert!(map.rooms.len() > 1);
    let first = map.rooms[0];
    assert!(map.rooms.iter().any(|r| (r.x1, r.y1) != (first.x1, first.y1)));
    let mut widths: Vec<i32> = map.rooms.iter().map(|r| r.x2 - r.x1).collect();
    widths.sort();
    widths.dedup();
    assert!(widths.len() > 1);
}

#[test]
fn the_same_seed_gives_the_same_dungeon() {
    let mut a = rltk::RandomNumberGenerator::seeded(99);
    let mut b = rltk::RandomNumberGenerator::seeded(99);
    let first = TileMap::generate(80, 50, &mut a);
    let second = TileMap::generate(80, 50, &mut b);
    assert_eq!(first.rooms, second.rooms);
    assert_eq!(first.tiles, second.tiles);
}

#[test]
fn the_smallest_map_that_is_taken_gets_its_one_room() {
    let mut rng = rltk::RandomNumberGenerator::seeded(3);
    let map = TileMap::generate(12, 12, &mut rng);
    check_dungeon(&map);
}

#[test]
fn generating_again_keeps_the_rooms_and_the_floor() {
    let mut rng = rltk::RandomNumberGenerator::seeded(5);
    let mut map = TileMap::generate(80, 50, &mut rng);
    let rooms = map.rooms.clone();
    let tiles = map.tiles.clone();
    map.generate_rooms_with(&mut rng);
    assert_eq!(&map.rooms[..rooms.len()], &rooms[..]);
    assert!(map.rooms.len() <= rooms.len() + MAX_ROOMS as usize);
    for (i, t) in tiles.iter().enumerate() {
        if *t == TileType::Floor {
            assert_eq!(map.tiles[i], TileType::Floor);
        }
    }
    check_dungeon_rooms_only(&map);
}

fn check_dungeon_rooms_only(map: &TileMap) {
    for (k, room) in map.rooms.iter().enumerate() {
        for other in &map.rooms[..k] {
            assert!(!room.intersects(other));
        }
    }
    for pair in map.rooms.windows(2) {
        assert!(reachable(map, pair[0].center(), pair[1].center()));
    }
}

#[test]
fn the_game_map_is_eighty_by_fifty() {
    let map = TileMap::new_map_rooms_and_corridoors();
    assert_eq!((map.width, map.height), (80, 50));
    check_dungeon(&map);
}

#[test]
fn generate_rooms_fills_a_solid_map() {
    let mut map = TileMap::solid(60, 40);
    map.generate_rooms();
    check_dungeon(&map);
}

#[test]
fn the_test_map_is_walled_in_and_open_in_the_middle() {
    let map = TileMap::new_map_test();
    assert_eq!((map.width, map.height), (80, 50));
    assert_eq!(map.rooms, vec![Rect::new(0, 0, 80, 50)]);
    for x in 0..80 {
        assert!(!floor_at(&map, x, 0));
        assert!(!floor_at(&map, x, 49));
    }
    for y in 0..50 {
        assert!(!floor_at(&map, 0, y));
        assert!(!floor_at(&map, 79, y));
    }
    assert!(floor_at(&map, 40, 25));
    let walls = 4000 - floor_count(&map);
    let edge = 2 * 80 + 2 * 48;
    assert!(walls >= edge && walls <= edge + 400);
    assert!(walls > edge);
    assert!(map.revealed_tiles.iter().all(|r| !*r));
}

#[test]
fn a_wall_is_placed_anywhere_but_on_the_kept_tile() {
    let mut map = TileMap::new_map_test();
    map.place_wall_unless(40, 25, 40, 25);
    assert!(floor_at(&map, 40, 25));
    map.place_wall_unless(40, 25, 41, 25);
    assert!(!floor_at(&map, 40, 25));
}

#[test]
fn a_map_with_a_vector_of_the_wrong_length_is_not_valid() {
    let mut map = TileMap::solid(7, 5);
    assert!(map.is_valid());
    map.visible_tiles.pop();
    assert!(!map.is_valid());
    let mut map = TileMap::solid(7, 5);
    map.width = 5;
    assert!(!map.is_valid());
    map.width = 0;
    assert!(!map.is_valid());
    let mut map = TileMap::solid(7, 5);
    map.tiles.push(TileType::Wall);
    assert!(!map.is_valid());
    let mut map = TileMap::solid(7, 5);
    map.height = -5;
    assert!(!map.is_valid());
}

#[test]
fn the_sight_engine_reads_the_map_as_the_game_does() {
    let mut map = TileMap::solid(12, 9);
    map.apply_horizontal_tunnel(2, 4, 3);
    assert_eq!(rltk::Algorithm2D::dimensions(&map), rltk::Point::new(12, 9));
    assert!(rltk::Algorithm2D::in_bounds(&map, rltk::Point::new(11, 8)));
    assert!(!rltk::Algorithm2D::in_bounds(&map, rltk::Point::new(12, 8)));
    assert_eq!(rltk::Algorithm2D::point2d_to_index(&map, rltk::Point::new(3, 3)), map.xy_idx(3, 3));
    assert!(rltk::BaseMap::is_opaque(&map, 0));
    assert!(!rltk::BaseMap::is_opaque(&map, map.xy_idx(3, 3)));
    assert!(rltk::BaseMap::is_opaque(&map, 12 * 9));
    assert!(rltk::BaseMap::is_opaque(&map, usize::MAX));
}

#[test]
fn the_map_offers_no_exits_to_a_path_finder() {
    let mut map = TileMap::solid(12, 9);
    map.apply_horizontal_tunnel(2, 4, 3);
    let here = map.xy_idx(3, 3);
    assert!(rltk::BaseMap::get_available_exits(&map, here).is_empty());
    assert_eq!(rltk::BaseMap::get_pathing_distance(&map, here, here + 1), 1.0);
}
