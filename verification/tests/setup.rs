use roguelike::components::{Colour, PlayerPosition, Position, Renderable};
use roguelike::map::TileMap;
use roguelike::rect::Rect;
use roguelike::render::{draw_entities, draw_map, MapCell};
use roguelike::spawner::{monster, player, populate, SIGHT};
use roguelike::state::{RunState, State};
use roguelike::visibility::Visibility;
use roguelike::world::World;

#[test]
fn the_player_is_made_as_the_game_wants_it() {
    let parts = player(4, 9);
    assert_eq!(parts.position, Some(Position { x: 4, y: 9 }));
    assert!(parts.player.is_some());
    assert!(parts.monster.is_none());
    assert_eq!(parts.name.as_ref().unwrap().0, "You");
    let shed = parts.viewshed.as_ref().unwrap();
    assert_eq!(shed.range, SIGHT);
    assert_eq!(shed.range, 8);
    assert!(shed.dirty && shed.visible_tiles.is_empty());
    assert_eq!(
        parts.renderable,
        Some(Renderable {
            glyph: '@',
            fg: Colour { r: 255, g: 255, b: 0 },
            bg: Colour { r: 0, g: 0, b: 0 },
        })
    );
}

#[test]
fn a_one_makes_a_goblin_and_anything_else_an_orc() {
    let goblin = monster(3, 4, 1, 0);
    assert_eq!(goblin.name.as_ref().unwrap().0, "Goblin #0");
    assert_eq!(goblin.renderable.unwrap().glyph, 'g');
    assert_eq!(goblin.renderable.unwrap().fg, Colour { r: 255, g: 0, b: 0 });
    assert_eq!(goblin.renderable.unwrap().bg, Colour { r: 0, g: 0, b: 0 });
    assert!(goblin.monster.is_some() && goblin.player.is_none());
    assert_eq!(goblin.position, Some(Position { x: 3, y: 4 }));
    assert_eq!(goblin.viewshed.as_ref().unwrap().range, 8);
    assert!(goblin.viewshed.as_ref().unwrap().dirty);

    let orc = monster(3, 4, 2, 7);
    assert_eq!(orc.name.as_ref().unwrap().0, "Orc #7");
    assert_eq!(orc.renderable.unwrap().glyph, 'o');
}

#[test]
fn monster_numbers_are_written_in_decimal() {
    assert_eq!(monster(0, 0, 1, 9).name.unwrap().0, "Goblin #9");
    assert_eq!(monster(0, 0, 1, 10).name.unwrap().0, "Goblin #10");
    assert_eq!(monster(0, 0, 2, 28).name.unwrap().0, "Orc #28");
    assert_eq!(monster(0, 0, 2, 1204).name.unwrap().0, "Orc #1204");
    assert_eq!(monster(0, 0, 1, 4000000000).name.unwrap().0, "Goblin #4000000000");
}

#[test]
fn populate_puts_the_player_first_and_a_monster_in_every_other_room() {
    let mut rng = rltk::RandomNumberGenerator::seeded(21);
    let map = TileMap::generate(80, 50, &mut rng);
    let rooms = map.rooms.clone();
    assert!(rooms.len() > 2);
    let world = populate(map, &mut rng);
    assert_eq!(world.positions.len(), rooms.len());
    let (px, py) = rooms[0].center();
    assert_eq!(world.player_position, PlayerPosition::new(px, py));
    assert_eq!(world.positions[0], Some(Position { x: px, y: py }));
    assert!(world.players[0].is_some());
    assert_eq!(world.names[0].as_ref().unwrap().0, "You");
    let mut goblins = 0;
    let mut orcs = 0;
    for e in 1..rooms.len() {
        let (x, y) = rooms[e].center();
        assert_eq!(world.positions[e], Some(Position { x, y }));
        assert!(world.monsters[e].is_some());
        assert!(world.players[e].is_none());
        let name = &world.names[e].as_ref().unwrap().0;
        let glyph = world.renderables[e].unwrap().glyph;
        if glyph == 'g' {
            goblins += 1;
            assert_eq!(name, &format!("Goblin #{}", e - 1));
        } else {
            orcs += 1;
            assert_eq!(glyph, 'o');
            assert_eq!(name, &format!("Orc #{}", e - 1));
        }
        let shed = world.viewsheds[e].as_ref().unwrap();
        assert!(shed.dirty && shed.range == 8);
    }
    assert_eq!(goblins + orcs, rooms.len() - 1);
}

#[test]
fn populate_on_the_test_map_places_only_the_player() {
    let mut rng = rltk::RandomNumberGenerator::seeded(1);
    let world = populate(TileMap::new_map_test(), &mut rng);
    assert_eq!(world.positions.len(), 1);
    assert_eq!(world.positions[0], Some(Position { x: 40, y: 25 }));
}

#[test]
fn a_new_game_starts_with_the_simulation() {
    let mut rng = rltk::RandomNumberGenerator::seeded(2);
    let world = populate(TileMap::new_map_test(), &mut rng);
    let gs = State::new(world);
    assert_eq!(gs.run_state, RunState::Running);
}

fn small_world() -> World {
    let mut map = TileMap::solid(6, 4);
    map.apply_horizontal_tunnel(1, 4, 1);
    map.rooms.push(Rect::new(0, 0, 4, 2));
    World::new(map, PlayerPosition::new(2, 1))
}

#[test]
fn nothing_is_drawn_before_anything_was_seen() {
    let world = small_world();
    assert!(draw_map(&world).is_empty());
    assert!(draw_entities(&world).is_empty());
}

#[test]
fn revealed_tiles_are_drawn_in_index_order() {
    let mut world = small_world();
    world.map.revealed_tiles[1] = true;
    world.map.revealed_tiles[7] = true;
    world.map.revealed_tiles[8] = true;
    world.map.revealed_tiles[23] = true;
    world.map.visible_tiles[8] = true;
    assert_eq!(
        draw_map(&world),
        vec![
            MapCell { x: 1, y: 0, glyph: '#', lit: false },
            MapCell { x: 1, y: 1, glyph: '.', lit: false },
            MapCell { x: 2, y: 1, glyph: '.', lit: true },
            MapCell { x: 5, y: 3, glyph: '#', lit: false },
        ]
    );
}

#[test]
fn entities_in_view_with_a_glyph_are_drawn() {
    let mut world = small_world();
    let hero = world.create_entity(player(2, 1));
    let near = world.create_entity(monster(4, 1, 1, 0));
    let mut bare = monster(3, 1, 2, 1);
    bare.renderable = None;
    let unseen = world.create_entity(bare);
    Visibility::run(&mut world);
    assert_eq!(draw_entities(&world), vec![hero, near]);
    let cells = draw_map(&world);
    assert!(cells.contains(&MapCell { x: 2, y: 1, glyph: '.', lit: true }));
    assert!(cells.iter().all(|c| c.lit));

    let idx = world.map.xy_idx(4, 1);
    world.map.visible_tiles[idx] = false;
    assert_eq!(draw_entities(&world), vec![hero]);
    assert!(world.positions[unseen].is_some());
}

#[test]
fn a_new_game_is_in_order_and_peopled() {
    let mut rng = rltk::RandomNumberGenerator::seeded(17);
    let gs = roguelike::spawner::new_game(&mut rng);
    assert_eq!(gs.run_state, RunState::Running);
    assert!(gs.ecs.is_valid());
    assert_eq!((gs.ecs.map.width, gs.ecs.map.height), (80, 50));
    assert!(!gs.ecs.map.rooms.is_empty());
    assert_eq!(gs.ecs.positions.len(), gs.ecs.map.rooms.len());
    let (x, y) = gs.ecs.map.rooms[0].center();
    assert_eq!(gs.ecs.positions[0], Some(Position { x, y }));
    assert!(gs.ecs.players[0].is_some());
    assert!(gs.ecs.map.revealed_tiles.iter().all(|r| !*r));
}

#[test]
fn a_name_reads_as_its_text() {
    let parts = monster(1, 1, 1, 3);
    let name = parts.name.unwrap();
    let text: &str = &name;
    assert_eq!(text, "Goblin #3");
    assert_eq!(name.len(), 9);
}

#[test]
fn the_players_place_reads_and_writes_as_a_point() {
    let mut place = PlayerPosition::new(3, 9);
    assert_eq!((place.x, place.y), (3, 9));
    place.x = 5;
    place.y -= 1;
    assert_eq!(place, PlayerPosition::new(5, 8));
}
