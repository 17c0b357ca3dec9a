use crate::components::cells_of;
use crate::components::Coord;
use crate::game_map::GameMap;
use crate::game_map::TileType;
use vstd::prelude::*;

verus! {

/// A point of `rltk`, as its field-of-view computation takes and gives them.
#[verifier::external_type_specification]
#[verifier::external_body]
pub struct ExPoint(rltk::Point);

/// The farthest an entity can see. The field-of-view computation sets memory
/// aside for four times the square of the range.
pub const MAX_RANGE: i32 = 1000;

/// The cells that `rltk::field_of_view` finds in view from `(x, y)` out to
/// `range`, on a grid `width` by `height` whose cell with index `i` blocks the
/// view exactly when `opaque[i]` holds.
pub uninterp spec fn visible_from(
    x: int,
    y: int,
    range: int,
    width: int,
    height: int,
    opaque: Seq<bool>,
) -> Set<(int, int)>;

impl GameMap {
    /// For each cell, by index, whether it blocks the view: walls do, floor
    /// does not.
    pub open spec fn opaque(&self) -> Seq<bool> {
        self.tiles@.map_values(|t: TileType| t == TileType::Wall)
    }
}

impl rltk::BaseMap for GameMap {
    /// A wall blocks the view, and so does whatever lies beyond the grid.
    fn is_opaque(&self, idx: usize) -> (blocked: bool)
        ensures
            blocked == (idx >= self.tiles@.len() || self.tiles@[idx as int] == TileType::Wall),
    {
        if idx < self.tiles.len() {
            match self.tiles[idx] {
                TileType::Wall => true,
                TileType::Floor => false,
            }
        } else {
            true
        }
    }
}

impl rltk::Algorithm2D for GameMap {
    /// Hands `rltk` the sides of the grid, by `Point::new`.
    #[verifier::external_body]
    fn dimensions(&self) -> rltk::Point {
        rltk::Point::new(self.width, self.height)
    }
}

/// Calls `rltk::field_of_view` from `(x, y)` on the grid, through the two impls
/// above, and hands back the points it found.
///
/// The outside function starts from the viewer's own cell, walks the eight
/// directions and scans the octants between them, stopping at walls and at
/// `range`; it collects the cells in a hash set, drops those outside the grid
/// and returns the rest in the order the set is walked. So the contract says:
/// no cell comes twice, all lie on the grid, the viewer's cell is among them,
/// and which cells come is `visible_from` of the arguments. The order is not
/// stated. The viewer has to stand on the grid and the range has to be within
/// `0..=MAX_RANGE`: the outside arithmetic would otherwise leave `i32` or index
/// with a negative number.
#[verifier::external_body]
pub(crate) fn field_of_view(x: i32, y: i32, range: i32, grid: &GameMap) -> (cells: Vec<Coord>)
    requires
        grid.wf(),
        grid.in_bounds(x as int, y as int),
        0 <= range <= MAX_RANGE,
    ensures
        cells_of(cells@) == visible_from(
            x as int,
            y as int,
            range as int,
            grid.width as int,
            grid.height as int,
            grid.opaque(),
        ),
        cells@.no_duplicates(),
        forall|i: int| 0 <= i < cells@.len() ==> grid.in_bounds(#[trigger] cells@[i].x as int, cells@[i].y as int),
        cells_of(cells@).contains((x as int, y as int)),
{
    rltk::field_of_view(rltk::Point::new(x, y), range, grid).into_iter().map(
        |p| Coord { x: p.x, y: p.y },
    ).collect()
}

} // verus!
