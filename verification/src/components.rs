//! What an entity can be made of.

use vstd::prelude::*;

verus! {

/// The widest sight an entity can have, in tiles. Before it looks, the
/// sight engine reserves room for `(2 * range)^2` points and squares the
/// range in `i32`; the cap keeps that reservation to a few million points.
pub const MAX_RANGE: i32 = 1024;

/// A point of the grid.
#[derive(Clone, Copy, Debug, PartialEq, Eq, Structural, Hash)]
pub struct Coord {
    pub x: i32,
    pub y: i32,
}

impl Coord {
    pub fn new(x: i32, y: i32) -> (p: Coord)
        ensures
            p.x == x && p.y == y,
    {
        Coord { x, y }
    }
}

/// Where an entity stands.
#[derive(Clone, Copy, Debug, PartialEq, Eq, Structural)]
pub struct Position {
    pub x: i32,
    pub y: i32,
}

/// What an entity sees: the tiles in view when it last looked, how far it
/// sees, and whether it has to look again before `visible_tiles` is used.
#[derive(Clone, Debug)]
pub struct Viewshed {
    pub visible_tiles: Vec<Coord>,
    pub range: i32,
    pub dirty: bool,
}

/// A viewshed as contracts speak of it: the tiles in view as a set, since
/// the order in which they are stored carries no meaning.
#[verifier::ext_equal]
pub struct SightView {
    pub visible: Set<Coord>,
    pub range: int,
    pub dirty: bool,
}

impl View for Viewshed {
    type V = SightView;

    open spec fn view(&self) -> SightView {
        SightView {
            visible: self.visible_tiles@.to_set(),
            range: self.range as int,
            dirty: self.dirty,
        }
    }
}

impl Viewshed {
    /// The range is one the sight engine can work with.
    pub open spec fn wf(&self) -> bool {
        0 <= self.range <= MAX_RANGE
    }

    /// The sight of an entity that has not looked yet: nothing in view,
    /// and marked as in need of a look.
    pub fn new(range: i32) -> (v: Viewshed)
        requires
            0 <= range <= MAX_RANGE,
        ensures
            v.wf(),
            v.visible_tiles@.len() == 0,
            v.range == range,
            v.dirty,
    {
        Viewshed { visible_tiles: Vec::new(), range, dirty: true }
    }
}

/// Marks the entity the player steers.
#[derive(Clone, Copy, Debug, PartialEq, Eq, Structural)]
pub struct Player;

/// Marks a hostile entity.
#[derive(Clone, Copy, Debug, PartialEq, Eq, Structural)]
pub struct Monster;

/// What an entity is called.
#[derive(Clone, Debug)]
pub struct Name(pub String);

/// A colour as red, green and blue.
#[derive(Clone, Copy, Debug, PartialEq, Eq, Structural)]
pub struct Colour {
    pub r: u8,
    pub g: u8,
    pub b: u8,
}

/// How an entity is drawn: its glyph, and its foreground and background
/// colours.
#[derive(Clone, Copy, Debug, PartialEq, Eq, Structural)]
pub struct Renderable {
    pub glyph: char,
    pub fg: Colour,
    pub bg: Colour,
}

/// Where the player was last known to stand.
#[derive(Clone, Copy, Debug, PartialEq, Eq, Structural)]
pub struct PlayerPosition(pub Coord);

impl PlayerPosition {
    pub fn new(x: i32, y: i32) -> (p: PlayerPosition)
        ensures
            p.0.x == x && p.0.y == y,
    {
        PlayerPosition(Coord { x, y })
    }
}

impl core::ops::Deref for PlayerPosition {
    type Target = Coord;

    fn deref(&self) -> (p: &Coord)
        ensures
            *p == self.0,
    {
        &self.0
    }
}

impl core::ops::DerefMut for PlayerPosition {
    fn deref_mut(&mut self) -> (p: &mut Coord)
        ensures
            *p == old(self).0,
            final(self).0 == *final(p),
    {
        &mut self.0
    }
}

impl core::ops::Deref for Name {
    type Target = str;

    fn deref(&self) -> (s: &str)
        ensures
            s@ == self.0@,
    {
        self.0.as_str()
    }
}

} // verus!
