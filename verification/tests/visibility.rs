use roguelike::components::{Coord, Player, PlayerPosition, Position, Viewshed, MAX_RANGE};
use roguelike::map::{TileMap, TileType};
use roguelike::rect::Rect;
use roguelike::visibility::Visibility;
use roguelike::world::{Components, World};

fn one_room() -> TileMap {
    let mut map = TileMap::solid(10, 10);
    let room = Rect::new(0, 0, 8, 8);
    map.apply_room_to_map(&room);
    map.rooms.push(room);
    map
}

fn sighted(x: i32, y: i32, range: i32, player: bool) -> Components {
    Components {
        position: Some(Position { x, y }),
        viewshed: Some(Viewshed::new(range)),
        player: if player { Some(Player) } else { None },
        monster: None,
        name: None,
        renderable: None,
    }
}

fn sorted(points: &[Coord]) -> Vec<(i32, i32)> {
    let mut v: Vec<(i32, i32)> = points.iter().map(|p| (p.x, p.y)).collect();
    v.sort();
    v
}

#[test]
fn a_new_viewshed_is_empty_and_dirty() {
    let v = Viewshed::new(8);
    assert!(v.visible_tiles.is_empty());
    assert_eq!(v.range, 8);
    assert!(v.dirty);
    let widest = Viewshed::new(MAX_RANGE);
    assert_eq!(widest.range, 1024);
}

#[test]
fn the_player_in_the_middle_of_a_room_sees_all_of_its_floor() {
    let map = one_room();
    let (cx, cy) = map.rooms[0].center();
    assert_eq!((cx, cy), (4, 4));
    let mut world = World::new(map, PlayerPosition::new(cx, cy));
    let id = world.create_entity(sighted(cx, cy, 8, true));
    Visibility::run(&mut world);

    let shed = world.viewsheds[id].as_ref().unwrap();
    assert!(!shed.dirty);
    assert_eq!(shed.range, 8);
    let seen = sorted(&shed.visible_tiles);
    assert!(seen.contains(&(cx, cy)));
    for (x, y) in &seen {
        assert!((x - cx).abs() <= 8 && (y - cy).abs() <= 8);
        assert!(0 <= *x && *x < 10 && 0 <= *y && *y < 10);
    }
    let mut floor: Vec<(i32, i32)> = Vec::new();
    for y in 0..10 {
        for x in 0..10 {
            if world.map.tiles[world.map.xy_idx(x, y)] == TileType::Floor {
                floor.push((x, y));
            }
        }
    }
    assert_eq!(floor.len(), 64);
    for tile in &floor {
        assert!(seen.contains(tile), "floor tile {:?} is not in view", tile);
    }
    let seen_floor: Vec<(i32, i32)> = seen
        .iter()
        .copied()
        .filter(|(x, y)| world.map.tiles[world.map.xy_idx(*x, *y)] == TileType::Floor)
        .collect();
    let mut floor_sorted = floor.clone();
    floor_sorted.sort();
    assert_eq!(seen_floor, floor_sorted);
}

#[test]
fn the_players_sight_marks_the_map() {
    let map = one_room();
    let mut world = World::new(map, PlayerPosition::new(4, 4));
    let id = world.create_entity(sighted(4, 4, 8, true));
    Visibility::run(&mut world);
    let seen = sorted(&world.viewsheds[id].as_ref().unwrap().visible_tiles);
    for y in 0..10 {
        for x in 0..10 {
            let idx = world.map.xy_idx(x, y);
            let lit = seen.contains(&(x, y));
            assert_eq!(world.map.visible_tiles[idx], lit);
            assert_eq!(world.map.revealed_tiles[idx], lit);
        }
    }
}

#[test]
fn no_point_in_view_comes_twice() {
    let mut rng = rltk::RandomNumberGenerator::seeded(11);
    let map = TileMap::generate(80, 50, &mut rng);
    let (x, y) = map.rooms[0].center();
    let mut world = World::new(map, PlayerPosition::new(x, y));
    let id = world.create_entity(sighted(x, y, 8, true));
    Visibility::run(&mut world);
    let mut seen = sorted(&world.viewsheds[id].as_ref().unwrap().visible_tiles);
    let before = seen.len();
    seen.dedup();
    assert_eq!(seen.len(), before);
    assert!(before > 1);
}

#[test]
fn sight_stops_at_the_range() {
    let mut map = TileMap::solid(40, 40);
    let hall = Rect::new(0, 0, 38, 38);
    map.apply_room_to_map(&hall);
    for range in [0, 1, 3, 8] {
        let mut shed = Viewshed::new(range);
        let mut grid = TileMap {
            tiles: map.tiles.clone(),
            rooms: Vec::new(),
            width: 40,
            height: 40,
            revealed_tiles: vec![false; 1600],
            visible_tiles: vec![false; 1600],
        };
        Visibility::look(&mut grid, &Position { x: 20, y: 20 }, &mut shed, true);
        assert!(shed.visible_tiles.contains(&Coord::new(20, 20)));
        for p in &shed.visible_tiles {
            assert!((p.x - 20).abs() <= range && (p.y - 20).abs() <= range);
        }
        if range >= 1 {
            assert!(shed.visible_tiles.contains(&Coord::new(21, 20)));
            assert!(shed.visible_tiles.contains(&Coord::new(20, 19)));
        }
        if range == 0 {
            assert_eq!(shed.visible_tiles, vec![Coord::new(20, 20)]);
        }
        assert!(!shed.visible_tiles.contains(&Coord::new(20 + range + 1, 20)));
    }
}

#[test]
fn a_wall_hides_what_is_behind_it() {
    let mut map = TileMap::solid(20, 10);
    map.apply_horizontal_tunnel(1, 18, 5);
    map.tiles[5 * 20 + 10] = TileType::Wall;
    let mut shed = Viewshed::new(8);
    Visibility::look(&mut map, &Position { x: 6, y: 5 }, &mut shed, false);
    assert!(shed.visible_tiles.contains(&Coord::new(9, 5)));
    assert!(shed.visible_tiles.contains(&Coord::new(10, 5)));
    assert!(!shed.visible_tiles.contains(&Coord::new(11, 5)));
    assert!(!shed.visible_tiles.contains(&Coord::new(12, 5)));
    assert!(shed.visible_tiles.contains(&Coord::new(2, 5)));
}

#[test]
fn a_clean_viewshed_is_not_looked_at_again() {
    let map = one_room();
    let mut world = World::new(map, PlayerPosition::new(4, 4));
    let id = world.create_entity(sighted(4, 4, 8, true));
    Visibility::run(&mut world);
    let first = world.viewsheds[id].as_ref().unwrap().visible_tiles.clone();
    let revealed = world.map.revealed_tiles.clone();
    let visible = world.map.visible_tiles.clone();

    world.viewsheds[id].as_mut().unwrap().visible_tiles.reverse();
    let turned = world.viewsheds[id].as_ref().unwrap().visible_tiles.clone();
    Visibility::run(&mut world);
    let second = &world.viewsheds[id].as_ref().unwrap().visible_tiles;
    assert_eq!(second, &turned);
    assert_eq!(sorted(second), sorted(&first));
    assert!(!world.viewsheds[id].as_ref().unwrap().dirty);
    assert_eq!(world.map.revealed_tiles, revealed);
    assert_eq!(world.map.visible_tiles, visible);
}

#[test]
fn a_monsters_sight_leaves_the_map_alone() {
    let map = one_room();
    let mut world = World::new(map, PlayerPosition::new(4, 4));
    let id = world.create_entity(sighted(3, 3, 8, false));
    Visibility::run(&mut world);
    let shed = world.viewsheds[id].as_ref().unwrap();
    assert!(!shed.dirty);
    assert!(shed.visible_tiles.len() >= 64);
    assert!(world.map.visible_tiles.iter().all(|v| !*v));
    assert!(world.map.revealed_tiles.iter().all(|r| !*r));
}

#[test]
fn revealed_tiles_stay_revealed_when_the_player_moves_on() {
    let mut map = TileMap::solid(40, 12);
    map.apply_horizontal_tunnel(1, 38, 6);
    let mut world = World::new(map, PlayerPosition::new(2, 6));
    let id = world.create_entity(sighted(2, 6, 4, true));
    Visibility::run(&mut world);
    let first_visible = world.map.visible_tiles.clone();
    let first_revealed = world.map.revealed_tiles.clone();
    assert_eq!(first_visible, first_revealed);
    assert!(first_visible[world.map.xy_idx(2, 6)]);

    for _ in 0..20 {
        assert!(world.try_move_entity(id, 1, 0));
    }
    Visibility::run(&mut world);
    let idx_then = world.map.xy_idx(2, 6);
    let idx_now = world.map.xy_idx(22, 6);
    assert!(!world.map.visible_tiles[idx_then]);
    assert!(world.map.revealed_tiles[idx_then]);
    assert!(world.map.visible_tiles[idx_now]);
    for i in 0..world.map.tiles.len() {
        if first_revealed[i] || world.map.visible_tiles[i] {
            assert!(world.map.revealed_tiles[i]);
        }
        if world.map.revealed_tiles[i] {
            assert!(first_revealed[i] || world.map.visible_tiles[i]);
        }
    }
}

#[test]
fn an_entity_without_a_position_is_passed_over() {
    let map = one_room();
    let mut world = World::new(map, PlayerPosition::new(4, 4));
    let id = world.create_entity(Components {
        position: None,
        viewshed: Some(Viewshed::new(8)),
        player: Some(Player),
        monster: None,
        name: None,
        renderable: None,
    });
    Visibility::run(&mut world);
    let shed = world.viewsheds[id].as_ref().unwrap();
    assert!(shed.dirty);
    assert!(shed.visible_tiles.is_empty());
}

#[test]
fn apply_sight_stores_what_it_is_given() {
    let mut map = one_room();
    map.revealed_tiles[0] = true;
    let mut shed = Viewshed::new(8);
    let seen = vec![Coord::new(4, 4), Coord::new(5, 4), Coord::new(9, 9)];
    Visibility::apply_sight(&mut map, &mut shed, true, seen.clone());
    assert_eq!(shed.visible_tiles, seen);
    assert!(!shed.dirty);
    assert_eq!(shed.range, 8);
    for i in 0..100 {
        let lit = i == 44 || i == 45 || i == 99;
        assert_eq!(map.visible_tiles[i], lit);
        assert_eq!(map.revealed_tiles[i], lit || i == 0);
    }

    let mut other = Viewshed::new(3);
    Visibility::apply_sight(&mut map, &mut other, false, vec![Coord::new(1, 1)]);
    assert_eq!(other.visible_tiles, vec![Coord::new(1, 1)]);
    for i in 0..100 {
        let lit = i == 44 || i == 45 || i == 99;
        assert_eq!(map.visible_tiles[i], lit);
    }

    Visibility::apply_sight(&mut map, &mut shed, true, Vec::new());
    assert!(map.visible_tiles.iter().all(|v| !*v));
    assert!(map.revealed_tiles[44] && map.revealed_tiles[99] && map.revealed_tiles[0]);
}

#[test]
fn the_map_answers_for_single_tiles() {
    let map = one_room();
    let mut world = World::new(map, PlayerPosition::new(1, 1));
    world.create_entity(sighted(1, 1, 2, true));
    Visibility::run(&mut world);
    let map = &world.map;
    assert_eq!(map.tile_at(0, 0), TileType::Wall);
    assert_eq!(map.tile_at(1, 1), TileType::Floor);
    assert_eq!(map.tile_at(8, 8), TileType::Floor);
    assert_eq!(map.tile_at(9, 8), TileType::Wall);
    assert!(map.is_visible(1, 1) && map.is_revealed(1, 1));
    assert!(map.is_visible(0, 0) && map.is_revealed(0, 0));
    assert!(map.is_visible(3, 2) && map.is_revealed(3, 2));
    assert!(!map.is_visible(4, 1) && !map.is_revealed(4, 1));
    assert!(!map.is_visible(8, 8) && !map.is_revealed(8, 8));
}
