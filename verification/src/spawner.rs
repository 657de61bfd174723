//! Setting the world up: the player in the first room, and a monster in
//! each of the others.

use crate::components::{
    Colour, Coord, Monster, Name, Player, PlayerPosition, Position, Renderable, SightView,
    Viewshed,
};
use crate::dice::roll_dice;
use crate::fov::sight_fits;
use crate::generate::{rooms_apart, rooms_linked};
use crate::map::TileMap;
use crate::rect::Rect;
use crate::state::{RunState, State};
use crate::world::{Components, PartsView, World, WorldView};
use vstd::prelude::*;

verus! {

/// How far the player and the monsters see.
pub const SIGHT: i32 = 8;

/// The colour of the player's glyph.
pub open spec fn yellow() -> Colour {
    Colour { r: 255, g: 255, b: 0 }
}

/// The colour of a monster's glyph.
pub open spec fn red() -> Colour {
    Colour { r: 255, g: 0, b: 0 }
}

/// The colour behind every glyph.
pub open spec fn black() -> Colour {
    Colour { r: 0, g: 0, b: 0 }
}

/// The character of the digit `d`.
pub open spec fn digit(d: int) -> char {
    if d == 0 {
        '0'
    } else if d == 1 {
        '1'
    } else if d == 2 {
        '2'
    } else if d == 3 {
        '3'
    } else if d == 4 {
        '4'
    } else if d == 5 {
        '5'
    } else if d == 6 {
        '6'
    } else if d == 7 {
        '7'
    } else if d == 8 {
        '8'
    } else {
        '9'
    }
}

/// The number `n` written in decimal.
pub open spec fn decimal(n: nat) -> Seq<char>
    decreases n,
{
    if n < 10 {
        seq![digit(n as int)]
    } else {
        decimal(n / 10).push(digit((n % 10) as int))
    }
}

/// A sight that reaches `SIGHT` tiles, with nothing in view yet and in
/// need of a look.
pub open spec fn fresh_sight() -> SightView {
    SightView { visible: Set::empty(), range: SIGHT as int, dirty: true }
}

/// What the player's entity is made of when it starts at `(x, y)`.
pub open spec fn player_parts(x: i32, y: i32) -> PartsView {
    PartsView {
        position: Some(Position { x, y }),
        viewshed: Some(fresh_sight()),
        player: true,
        monster: false,
        name: Some("You"@),
        renderable: Some(Renderable { glyph: '@', fg: yellow(), bg: black() }),
    }
}

/// What monster number `index` is made of when it starts at `(x, y)` and
/// the die came up `roll`: a goblin on a one and an orc otherwise, named
/// after its kind and its number.
pub open spec fn monster_parts(x: i32, y: i32, roll: int, index: nat) -> PartsView {
    PartsView {
        position: Some(Position { x, y }),
        viewshed: Some(fresh_sight()),
        player: false,
        monster: true,
        name: Some(
            if roll == 1 {
                "Goblin #"@ + decimal(index)
            } else {
                "Orc #"@ + decimal(index)
            },
        ),
        renderable: Some(
            Renderable {
                glyph: if roll == 1 {
                    'g'
                } else {
                    'o'
                },
                fg: red(),
                bg: black(),
            },
        ),
    }
}

/// `parts` are those of monster number `index` at `(x, y)`, of one kind
/// or the other.
pub open spec fn is_monster(parts: PartsView, x: i32, y: i32, index: nat) -> bool {
    parts == monster_parts(x, y, 1, index) || parts == monster_parts(x, y, 2, index)
}

impl WorldView {
    /// What entity `e` is made of.
    pub open spec fn parts(self, e: int) -> PartsView {
        PartsView {
            position: self.positions[e],
            viewshed: self.viewsheds[e],
            player: self.players[e],
            monster: self.monsters[e],
            name: self.names[e],
            renderable: self.renderables[e],
        }
    }
}

/// Calls `String::push_str`, which appends `tail` to `text`.
#[verifier::external_body]
fn push_str(text: &mut String, tail: &str)
    ensures
        final(text)@ == old(text)@ + tail@,
{
    text.push_str(tail)
}

/// The digit `d` as a string.
fn digit_str(d: usize) -> (s: &'static str)
    requires
        d < 10,
    ensures
        s@ == seq![digit(d as int)],
{
    proof {
        reveal_strlit("0");
        reveal_strlit("1");
        reveal_strlit("2");
        reveal_strlit("3");
        reveal_strlit("4");
        reveal_strlit("5");
        reveal_strlit("6");
        reveal_strlit("7");
        reveal_strlit("8");
        reveal_strlit("9");
    }
    let s = if d == 0 {
        "0"
    } else if d == 1 {
        "1"
    } else if d == 2 {
        "2"
    } else if d == 3 {
        "3"
    } else if d == 4 {
        "4"
    } else if d == 5 {
        "5"
    } else if d == 6 {
        "6"
    } else if d == 7 {
        "7"
    } else if d == 8 {
        "8"
    } else {
        "9"
    };
    assert(s@ =~= seq![digit(d as int)]);
    s
}

/// Appends `n`, written in decimal, to `text`.
fn push_decimal(text: &mut String, n: usize)
    ensures
        final(text)@ == old(text)@ + decimal(n as nat),
    decreases n,
{
    if n >= 10 {
        push_decimal(text, n / 10);
    }
    push_str(text, digit_str(n % 10));
    assert(text@ =~= old(text)@ + decimal(n as nat));
}

/// A sight that reaches `SIGHT` tiles and has not looked yet.
fn new_sight() -> (v: Viewshed)
    ensures
        v@ == fresh_sight(),
        v.wf(),
{
    let v = Viewshed::new(SIGHT);
    assert(v.visible_tiles@.to_set() =~= Set::empty());
    v
}

/// The parts of the player's entity, starting at `(x, y)`.
pub fn player(x: i32, y: i32) -> (parts: Components)
    ensures
        parts@ == player_parts(x, y),
{
    Components {
        position: Some(Position { x, y }),
        viewshed: Some(new_sight()),
        player: Some(Player),
        monster: None,
        name: Some(Name("You".to_owned())),
        renderable: Some(
            Renderable {
                glyph: '@',
                fg: Colour { r: 255, g: 255, b: 0 },
                bg: Colour { r: 0, g: 0, b: 0 },
            },
        ),
    }
}

/// The parts of monster number `index`, starting at `(x, y)`, of the kind
/// that the die roll `roll` picks.
pub fn monster(x: i32, y: i32, roll: i32, index: usize) -> (parts: Components)
    ensures
        parts@ == monster_parts(x, y, roll as int, index as nat),
{
    let goblin = roll == 1;
    let mut name = if goblin {
        "Goblin #".to_owned()
    } else {
        "Orc #".to_owned()
    };
    push_decimal(&mut name, index);
    Components {
        position: Some(Position { x, y }),
        viewshed: Some(new_sight()),
        player: None,
        monster: Some(Monster),
        name: Some(Name(name)),
        renderable: Some(
            Renderable {
                glyph: if goblin {
                    'g'
                } else {
                    'o'
                },
                fg: Colour { r: 255, g: 0, b: 0 },
                bg: Colour { r: 0, g: 0, b: 0 },
            },
        ),
    }
}

/// Every room's center is a tile of the map.
pub open spec fn centers_on_map(map: &TileMap) -> bool {
    forall|k: int|
        0 <= k < map.rooms@.len() ==> map.contains(
            (#[trigger] map.rooms@[k]).spec_center().0,
            map.rooms@[k].spec_center().1,
        )
}

/// Peoples a map: the player goes to the center of the first room, and
/// the center of every other room gets a monster whose kind a die picks.
/// A map without rooms has no place for the player and is not taken.
pub fn populate(map: TileMap, rng: &mut rltk::RandomNumberGenerator) -> (world: World)
    requires
        map.wf(),
        sight_fits(&map),
        map.rooms@.len() >= 1,
        centers_on_map(&map),
        forall|i: int|
            0 <= i < map.visible_tiles@.len() && #[trigger] map.visible_tiles@[i]
                ==> map.revealed_tiles@[i],
    ensures
        world.wf(),
        world.map == map,
        world@.count() == map.rooms@.len(),
        world@.player_position == (Coord {
            x: map.rooms@[0].spec_center().0 as i32,
            y: map.rooms@[0].spec_center().1 as i32,
        }),
        world@.parts(0) == player_parts(
            map.rooms@[0].spec_center().0 as i32,
            map.rooms@[0].spec_center().1 as i32,
        ),
        forall|e: int|
            1 <= e < map.rooms@.len() ==> is_monster(
                #[trigger] world@.parts(e),
                map.rooms@[e].spec_center().0 as i32,
                map.rooms@[e].spec_center().1 as i32,
                (e - 1) as nat,
            ),
{
    let ghost rooms = map.rooms@;
    let (player_x, player_y) = map.rooms[0].center();
    let mut world = World::new(map, PlayerPosition::new(player_x, player_y));
    world.create_entity(player(player_x, player_y));
    assert(world@.parts(0) == player_parts(player_x, player_y));
    let mut i: usize = 1;
    while i < world.map.rooms.len()
        invariant
            1 <= i <= rooms.len(),
            world.wf(),
            world.map == map,
            rooms == map.rooms@,
            centers_on_map(&map),
            world@.count() == i,
            world@.player_position == (Coord { x: player_x, y: player_y }),
            world@.parts(0) == player_parts(player_x, player_y),
            forall|e: int|
                1 <= e < i ==> is_monster(
                    #[trigger] world@.parts(e),
                    rooms[e].spec_center().0 as i32,
                    rooms[e].spec_center().1 as i32,
                    (e - 1) as nat,
                ),
        decreases rooms.len() - i,
    {
        let (x, y) = world.map.rooms[i].center();
        let roll = roll_dice(rng, 1, 2);
        let ghost before = world@;
        world.create_entity(monster(x, y, roll, i - 1));
        proof {
            assert(world@.parts(i as int) == monster_parts(x, y, roll as int, (i - 1) as nat));
            assert forall|e: int| 0 <= e < i implies #[trigger] world@.parts(e) == before.parts(
                e,
            ) by {}
        }
        i += 1;
    }
    world
}

/// A game about to begin: a dungeon of 80 tiles by 50 drawn from `rng`,
/// peopled by `populate`, with the first turn going to the simulation.
pub fn new_game(rng: &mut rltk::RandomNumberGenerator) -> (gs: State)
    ensures
        gs.run_state == RunState::Running,
        gs.ecs.wf(),
        gs.ecs.map.dungeon_inv(),
        gs.ecs.map.width == 80,
        gs.ecs.map.height == 50,
        rooms_apart(gs.ecs.map.rooms@),
        rooms_linked(gs.ecs.map.tiles@, 80, 50, gs.ecs.map.rooms@),
        gs.ecs@.count() == gs.ecs.map.rooms@.len() >= 1,
        gs.ecs@.parts(0) == player_parts(
            gs.ecs.map.rooms@[0].spec_center().0 as i32,
            gs.ecs.map.rooms@[0].spec_center().1 as i32,
        ),
        forall|e: int|
            1 <= e < gs.ecs.map.rooms@.len() ==> is_monster(
                #[trigger] gs.ecs@.parts(e),
                gs.ecs.map.rooms@[e].spec_center().0 as i32,
                gs.ecs.map.rooms@[e].spec_center().1 as i32,
                (e - 1) as nat,
            ),
        forall|i: int| 0 <= i < gs.ecs@.revealed.len() ==> !gs.ecs@.revealed[i],
{
    let map = TileMap::generate(80, 50, rng);
    proof {
        assert forall|k: int| 0 <= k < map.rooms@.len() implies map.contains(
            (#[trigger] map.rooms@[k]).spec_center().0,
            map.rooms@[k].spec_center().1,
        ) by {
            Rect::lemma_center_inside(map.rooms@[k]);
        }
    }
    State::new(populate(map, rng))
}

} // verus!
