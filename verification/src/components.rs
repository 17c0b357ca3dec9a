use vstd::prelude::*;

verus! {

/// A colour of `rltk`. It is carried from where an entity is made to where it
/// is drawn; nothing here looks inside.
#[verifier::external_type_specification]
#[verifier::external_body]
pub struct ExRgb(rltk::RGB);

/// Where an entity stands.
#[derive(Clone, Copy, Debug, PartialEq, Eq, Structural)]
pub struct Position {
    pub x: i32,
    pub y: i32,
}

/// A cell of the grid, named by its column and row.
#[derive(Clone, Copy, Debug, PartialEq, Eq, Structural)]
pub struct Coord {
    pub x: i32,
    pub y: i32,
}

/// How an entity is drawn: a glyph of code page 437 and two colours.
pub struct Renderable {
    pub glyph: u16,
    pub fg: rltk::RGB,
    pub bg: rltk::RGB,
}

/// Marks the entity that the player steers.
#[derive(Clone, Copy, Debug, PartialEq, Eq, Structural)]
pub struct Player {}

/// Marks an entity as a monster.
#[derive(Clone, Copy, Debug, PartialEq, Eq, Structural)]
pub struct Monster {}

/// What an entity is called. It has no bearing on the simulation.
#[derive(Clone, Debug)]
pub struct Name {
    pub name: String,
}

/// What an entity sees: the cells in view when they were last worked out, how
/// far the entity sees, and whether the cells have to be worked out again.
#[derive(Clone, Debug)]
pub struct Viewshed {
    pub visible_tiles: Vec<Coord>,
    pub range: i32,
    pub dirty: bool,
}

/// The two modes of the simulation.
#[derive(Clone, Copy, Debug, PartialEq, Eq, Structural)]
pub enum RunState {
    /// Nothing moves until the player acts.
    AwaitingInput,
    /// The player has acted; the systems are due to run.
    Running,
}

/// The cells that a sequence of points names.
pub open spec fn cells_of(s: Seq<Coord>) -> Set<(int, int)> {
    Set::new(|c: (int, int)| exists|i: int| 0 <= i < s.len() && (#[trigger] s[i]).x == c.0 && s[i].y == c.1)
}

} // verus!
