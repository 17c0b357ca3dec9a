use crate::rect::Rect;
use vstd::prelude::*;

verus! {

/// What a grid cell is made of.
#[derive(Clone, Copy, Debug, PartialEq, Eq, Structural)]
pub enum TileType {
    Wall,
    Floor,
}

/// The dungeon: a rectangular grid of tiles stored row by row, the rooms carved
/// into it in the order they were placed, and two layers of visibility flags.
pub struct GameMap {
    pub tiles: Vec<TileType>,
    pub rooms: Vec<Rect>,
    pub width: i32,
    pub height: i32,
    /// Cells the player has seen at some time.
    pub revealed_tiles: Vec<bool>,
    /// Cells the player sees now.
    pub visible_tiles: Vec<bool>,
}

/// The longest side a grid can have: `i32::MAX` less the longest range of view
/// and one, so that no cell an entity on the grid may look at has a coordinate
/// beyond `i32`.
pub const MAX_SIDE: i32 = 2_147_482_646;

/// The row-major index of `(x, y)` on a grid `width` wide.
pub open spec fn cell_index(width: int, x: int, y: int) -> int {
    y * width + x
}

/// A cell inside a `width` by `height` grid has an index below `width * height`.
pub proof fn lemma_index_in_range(width: int, height: int, x: int, y: int)
    requires
        0 <= x < width,
        0 <= y < height,
    ensures
        0 <= cell_index(width, x, y) < width * height,
{
    assert(0 <= y * width && (y + 1) * width <= height * width) by (nonlinear_arith)
        requires
            0 <= y < height,
            0 < width,
    ;
    assert((y + 1) * width == y * width + width) by (nonlinear_arith);
}

/// Two cells of one grid with the same index are the same cell.
pub proof fn lemma_index_injective(width: int, x1: int, y1: int, x2: int, y2: int)
    requires
        0 <= x1 < width,
        0 <= x2 < width,
        cell_index(width, x1, y1) == cell_index(width, x2, y2),
    ensures
        x1 == x2,
        y1 == y2,
{
    if y1 < y2 {
        assert((y1 + 1) * width <= y2 * width) by (nonlinear_arith)
            requires
                y1 + 1 <= y2,
                0 < width,
        ;
        assert((y1 + 1) * width == y1 * width + width) by (nonlinear_arith);
    } else if y2 < y1 {
        assert((y2 + 1) * width <= y1 * width) by (nonlinear_arith)
            requires
                y2 + 1 <= y1,
                0 < width,
        ;
        assert((y2 + 1) * width == y2 * width + width) by (nonlinear_arith);
    }
}

/// Every index below `width * height` is the index of a cell inside the grid.
pub proof fn lemma_index_has_cell(width: int, height: int, i: int)
    requires
        0 < width,
        0 <= i < width * height,
    ensures
        0 <= i % width < width,
        0 <= i / width < height,
        cell_index(width, i % width, i / width) == i,
{
    vstd::arithmetic::div_mod::lemma_fundamental_div_mod(i, width);
    vstd::arithmetic::div_mod::lemma_mod_bound(i, width);
    let q = i / width;
    assert(width * q == q * width) by (nonlinear_arith);
    if q < 0 {
        assert(q * width <= -width) by (nonlinear_arith)
            requires
                q <= -1,
                0 < width,
        ;
    }
    if q >= height {
        assert(q * width >= height * width) by (nonlinear_arith)
            requires
                q >= height,
                0 < width,
        ;
        assert(height * width == width * height) by (nonlinear_arith);
    }
}

/// Every index of a well-formed grid belongs to exactly one cell of the grid,
/// and the tile stored there is floor or wall and not both: no index is left
/// without a kind.
pub proof fn lemma_every_index_classified(m: GameMap, i: int)
    requires
        m.wf(),
        0 <= i < m.width * m.height,
    ensures
        i < m.tiles@.len(),
        (m.tiles@[i] == TileType::Floor) != (m.tiles@[i] == TileType::Wall),
        m.in_bounds(i % (m.width as int), i / (m.width as int)),
        m.tile_at(i % (m.width as int), i / (m.width as int)) == m.tiles@[i],
        forall|x: int, y: int|
            m.in_bounds(x, y) && cell_index(m.width as int, x, y) == i ==> x == i % (m.width as int)
                && y == i / (m.width as int),
{
    lemma_index_has_cell(m.width as int, m.height as int, i);
    assert forall|x: int, y: int|
        m.in_bounds(x, y) && cell_index(m.width as int, x, y) == i implies x == i % (
    m.width as int) && y == i / (m.width as int) by {
        lemma_index_injective(m.width as int, x, y, i % (m.width as int), i / (m.width as int));
    }
}

impl GameMap {
    /// The grid has positive sides of at most `MAX_SIDE`, its three layers have one entry per cell,
    /// and every cell that is visible now has also been revealed.
    pub open spec fn wf(&self) -> bool {
        &&& 0 < self.width <= MAX_SIDE
        &&& 0 < self.height <= MAX_SIDE
        &&& self.width * self.height <= i32::MAX
        &&& self.tiles@.len() == self.width * self.height
        &&& self.revealed_tiles@.len() == self.width * self.height
        &&& self.visible_tiles@.len() == self.width * self.height
        &&& forall|i: int|
            0 <= i < self.visible_tiles@.len() && #[trigger] self.visible_tiles@[i]
                ==> self.revealed_tiles@[i]
    }

    /// Whether `(x, y)` is a cell of the grid.
    pub open spec fn in_bounds(&self, x: int, y: int) -> bool {
        0 <= x < self.width && 0 <= y < self.height
    }

    /// The tile at `(x, y)`.
    pub open spec fn tile_at(&self, x: int, y: int) -> TileType {
        self.tiles@[cell_index(self.width as int, x, y)]
    }

    /// Whether `(x, y)` is a cell of the grid that holds floor.
    pub open spec fn is_floor(&self, x: int, y: int) -> bool {
        self.in_bounds(x, y) && self.tile_at(x, y) == TileType::Floor
    }

    /// Everything but the tiles is as in `before`.
    pub open spec fn same_but_tiles(&self, before: GameMap) -> bool {
        &&& self.width == before.width
        &&& self.height == before.height
        &&& self.rooms@ == before.rooms@
        &&& self.revealed_tiles@ == before.revealed_tiles@
        &&& self.visible_tiles@ == before.visible_tiles@
        &&& self.tiles@.len() == before.tiles@.len()
    }

    /// Everything but the rooms and the tiles is as in `before`.
    pub open spec fn same_but_rooms_and_tiles(&self, before: GameMap) -> bool {
        &&& self.width == before.width
        &&& self.height == before.height
        &&& self.revealed_tiles@ == before.revealed_tiles@
        &&& self.visible_tiles@ == before.visible_tiles@
        &&& self.tiles@.len() == before.tiles@.len()
    }

    /// The tiles are those of `before` with floor laid on every cell of the grid
    /// in the block `x_lo..=x_hi` by `y_lo..=y_hi`; nothing else differs.
    pub open spec fn carved_from(&self, before: GameMap, x_lo: int, x_hi: int, y_lo: int, y_hi: int) -> bool {
        &&& self.same_but_tiles(before)
        &&& forall|x: int, y: int|
            #![trigger self.tile_at(x, y)]
            #![trigger before.tile_at(x, y)]
            self.in_bounds(x, y) ==> self.tile_at(x, y) == if x_lo <= x <= x_hi && y_lo <= y
                <= y_hi {
                TileType::Floor
            } else {
                before.tile_at(x, y)
            }
    }

    /// A grid of the given size that is wall everywhere, with no room and
    /// nothing seen.
    pub fn new(width: i32, height: i32) -> (grid: GameMap)
        requires
            0 < width <= MAX_SIDE,
            0 < height <= MAX_SIDE,
            width * height <= i32::MAX,
        ensures
            grid.wf(),
            grid.width == width,
            grid.height == height,
            grid.rooms@.len() == 0,
            forall|i: int| 0 <= i < grid.tiles@.len() ==> grid.tiles@[i] == TileType::Wall,
            forall|x: int, y: int|
                grid.in_bounds(x, y) ==> #[trigger] grid.tile_at(x, y) == TileType::Wall,
            forall|i: int| 0 <= i < grid.revealed_tiles@.len() ==> !grid.revealed_tiles@[i],
            forall|i: int| 0 <= i < grid.visible_tiles@.len() ==> !grid.visible_tiles@[i],
    {
        assert(0 <= width * height) by (nonlinear_arith)
            requires
                0 < width,
                0 < height,
        ;
        let n: usize = (width as usize) * (height as usize);
        let grid = GameMap {
            tiles: vec![TileType::Wall; n],
            rooms: Vec::new(),
            width,
            height,
            revealed_tiles: vec![false; n],
            visible_tiles: vec![false; n],
        };
        proof {
            assert forall|x: int, y: int| grid.in_bounds(x, y) implies #[trigger] grid.tile_at(
                x,
                y,
            ) == TileType::Wall by {
                lemma_index_in_range(width as int, height as int, x, y);
            }
        }
        grid
    }

    /// The index of the cell `(x, y)` in each of the three layers.
    pub fn xy_idx(&self, x: i32, y: i32) -> (idx: usize)
        requires
            self.wf(),
            self.in_bounds(x as int, y as int),
        ensures
            idx == cell_index(self.width as int, x as int, y as int),
            idx < self.tiles@.len(),
    {
        proof {
            lemma_index_in_range(self.width as int, self.height as int, x as int, y as int);
            assert(0 <= y * self.width) by (nonlinear_arith)
                requires
                    0 <= y,
                    0 < self.width,
            ;
        }
        (y as usize) * (self.width as usize) + (x as usize)
    }

    /// Lays floor on every cell of the grid in the block `x_lo..=x_hi` by
    /// `y_lo..=y_hi`. Cells of the block that lie outside the grid are passed over;
    /// laying floor on floor changes nothing.
    pub fn carve_block(&mut self, x_lo: i32, x_hi: i32, y_lo: i32, y_hi: i32)
        requires
            old(self).wf(),
        ensures
            final(self).wf(),
            final(self).carved_from(*old(self), x_lo as int, x_hi as int, y_lo as int, y_hi as int),
    {
        let left: i32 = if x_lo < 0 { 0 } else { x_lo };
        let right: i32 = if x_hi >= self.width { self.width - 1 } else { x_hi };
        let top: i32 = if y_lo < 0 { 0 } else { y_lo };
        let bottom: i32 = if y_hi >= self.height { self.height - 1 } else { y_hi };
        let mut y: i32 = top;
        while y <= bottom
            invariant
                self.wf(),
                self.same_but_tiles(*old(self)),
                0 <= top <= y,
                y <= bottom + 1 || y == top,
                bottom < self.height,
                0 <= left,
                right < self.width,
                left == (if x_lo < 0 { 0 } else { x_lo }),
                right == (if x_hi >= self.width { self.width - 1 } else { x_hi as int }),
                top == (if y_lo < 0 { 0 } else { y_lo }),
                bottom == (if y_hi >= self.height { self.height - 1 } else { y_hi as int }),
                forall|cx: int, cy: int|
                    #![trigger self.tile_at(cx, cy)]
                    self.in_bounds(cx, cy) ==> self.tile_at(cx, cy) == if left <= cx <= right
                        && top <= cy < y {
                        TileType::Floor
                    } else {
                        old(self).tile_at(cx, cy)
                    },
            decreases bottom + 1 - y,
        {
            let mut x: i32 = left;
            while x <= right
                invariant
                    self.wf(),
                    self.same_but_tiles(*old(self)),
                    0 <= top <= y <= bottom,
                    bottom < self.height,
                    0 <= left <= x,
                    right < self.width,
                    forall|cx: int, cy: int|
                        #![trigger self.tile_at(cx, cy)]
                        self.in_bounds(cx, cy) ==> self.tile_at(cx, cy) == if left <= cx <= right
                            && (top <= cy < y || (cy == y && cx < x)) {
                            TileType::Floor
                        } else {
                            old(self).tile_at(cx, cy)
                        },
                decreases right + 1 - x,
            {
                let idx: usize = self.xy_idx(x, y);
                let ghost prev = *self;
                self.tiles[idx] = TileType::Floor;
                proof {
                    assert forall|cx: int, cy: int| self.in_bounds(cx, cy) implies #[trigger] self.tile_at(
                        cx,
                        cy,
                    ) == if left <= cx <= right && (top <= cy < y || (cy == y && cx < x + 1)) {
                        TileType::Floor
                    } else {
                        old(self).tile_at(cx, cy)
                    } by {
                        lemma_index_in_range(self.width as int, self.height as int, cx, cy);
                        if cx != x || cy != y {
                            if cell_index(self.width as int, cx, cy) == idx {
                                lemma_index_injective(self.width as int, cx, cy, x as int, y as int);
                            }
                            assert(self.tile_at(cx, cy) == prev.tile_at(cx, cy));
                        }
                    }
                }
                x = x + 1;
            }
            y = y + 1;
        }
    }

    /// Lays floor on the cells of the room that `room` describes.
    pub fn apply_room_to_map(&mut self, room: &Rect)
        requires
            old(self).wf(),
        ensures
            final(self).wf(),
            final(self).carved_from(*old(self), room.x1 + 1, room.x2 as int, room.y1 + 1, room.y2 as int),
    {
        if room.x1 < i32::MAX && room.y1 < i32::MAX {
            self.carve_block(room.x1 + 1, room.x2, room.y1 + 1, room.y2);
        }
    }

    /// Lays floor along row `y` between columns `x1` and `x2`, both included,
    /// whichever of the two is the smaller.
    pub fn apply_horizontal_tunnel(&mut self, x1: i32, x2: i32, y: i32)
        requires
            old(self).wf(),
        ensures
            final(self).wf(),
            final(self).carved_from(
                *old(self),
                if x1 <= x2 { x1 as int } else { x2 as int },
                if x1 <= x2 { x2 as int } else { x1 as int },
                y as int,
                y as int,
            ),
    {
        if x1 <= x2 {
            self.carve_block(x1, x2, y, y);
        } else {
            self.carve_block(x2, x1, y, y);
        }
    }

    /// Lays floor along column `x` between rows `y1` and `y2`, both included,
    /// whichever of the two is the smaller.
    pub fn apply_vertical_tunnel(&mut self, y1: i32, y2: i32, x: i32)
        requires
            old(self).wf(),
        ensures
            final(self).wf(),
            final(self).carved_from(
                *old(self),
                x as int,
                x as int,
                if y1 <= y2 { y1 as int } else { y2 as int },
                if y1 <= y2 { y2 as int } else { y1 as int },
            ),
    {
        if y1 <= y2 {
            self.carve_block(x, x, y1, y2);
        } else {
            self.carve_block(x, x, y2, y1);
        }
    }

    /// True exactly when the grid is well formed.
    pub fn is_well_formed(&self) -> (ok: bool)
        ensures
            ok == self.wf(),
    {
        if self.width <= 0 || self.width > MAX_SIDE || self.height <= 0 || self.height > MAX_SIDE {
            return false;
        }
        assert(0 <= self.width * self.height <= 0x7fff_ffff * 0x7fff_ffff) by (nonlinear_arith)
            requires
                0 < self.width <= 0x7fff_ffff,
                0 < self.height <= 0x7fff_ffff,
        ;
        let cells: i64 = (self.width as i64) * (self.height as i64);
        if cells > i32::MAX as i64 {
            return false;
        }
        let n: usize = cells as usize;
        if self.tiles.len() != n || self.revealed_tiles.len() != n || self.visible_tiles.len()
            != n {
            return false;
        }
        let mut i: usize = 0;
        while i < n
            invariant
                i <= n,
                n == self.visible_tiles@.len(),
                n == self.revealed_tiles@.len(),
                forall|k: int|
                    0 <= k < i && #[trigger] self.visible_tiles@[k] ==> self.revealed_tiles@[k],
            decreases n - i,
        {
            if self.visible_tiles[i] && !self.revealed_tiles[i] {
                return false;
            }
            i = i + 1;
        }
        true
    }

    /// Whether `(x, y)` is a cell of the grid.
    pub fn contains(&self, x: i32, y: i32) -> (b: bool)
        ensures
            b == self.in_bounds(x as int, y as int),
    {
        0 <= x && x < self.width && 0 <= y && y < self.height
    }
}

/// Laying floor where floor already lies changes nothing: a block carved a
/// second time leaves every tile as the first carving left it.
pub proof fn lemma_carving_twice_is_carving_once(
    before: GameMap,
    once: GameMap,
    twice: GameMap,
    x_lo: int,
    x_hi: int,
    y_lo: int,
    y_hi: int,
)
    requires
        before.wf(),
        once.carved_from(before, x_lo, x_hi, y_lo, y_hi),
        twice.carved_from(once, x_lo, x_hi, y_lo, y_hi),
    ensures
        twice.tiles@ == once.tiles@,
{
    assert forall|i: int| 0 <= i < twice.tiles@.len() implies twice.tiles@[i] == once.tiles@[i] by {
        lemma_index_has_cell(before.width as int, before.height as int, i);
        let x = i % (before.width as int);
        let y = i / (before.width as int);
        assert(twice.in_bounds(x, y));
        assert(twice.tile_at(x, y) == twice.tiles@[i]);
        assert(once.tile_at(x, y) == once.tiles@[i]);
    }
    assert(twice.tiles@ =~= once.tiles@);
}

} // verus!
