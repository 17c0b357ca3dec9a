use crate::connectivity::lemma_column_connected;
use crate::connectivity::lemma_connected_kept;
use crate::connectivity::lemma_connected_refl;
use crate::connectivity::lemma_connected_sym;
use crate::connectivity::lemma_connected_trans;
use crate::connectivity::lemma_row_connected;
use crate::game_map::GameMap;
use crate::game_map::TileType;
use crate::game_map::MAX_SIDE;
use crate::random;
use crate::rect::lemma_center_inside;
use crate::rect::Rect;
use vstd::prelude::*;

verus! {

/// How many times the generator tries to place a room.
pub const MAX_ROOMS: i32 = 30;

/// The smallest side a generated room can have.
pub const MIN_SIZE: i32 = 6;

/// One more than the largest side a generated room can have.
pub const MAX_SIZE: i32 = 10;

/// Whether `(x, y)` lies in row `row` between columns `xa` and `xb`, both
/// included, in either order.
pub open spec fn on_row(xa: int, xb: int, row: int, x: int, y: int) -> bool {
    y == row && (xa <= x <= xb || xb <= x <= xa)
}

/// Whether `(x, y)` lies in column `column` between rows `ya` and `yb`, both
/// included, in either order.
pub open spec fn on_column(ya: int, yb: int, column: int, x: int, y: int) -> bool {
    x == column && (ya <= y <= yb || yb <= y <= ya)
}

/// Whether `(x, y)` lies on the corridor from `from` to `to`: one stretch along a
/// row and one along a column, meeting at a corner. With `horizontal_first` the
/// corridor leaves `from` along its row; otherwise along its column.
pub open spec fn on_corridor(
    from: (int, int),
    to: (int, int),
    horizontal_first: bool,
    x: int,
    y: int,
) -> bool {
    if horizontal_first {
        on_row(from.0, to.0, from.1, x, y) || on_column(from.1, to.1, to.0, x, y)
    } else {
        on_column(from.1, to.1, from.0, x, y) || on_row(from.0, to.0, to.1, x, y)
    }
}

impl GameMap {
    /// A room fits when it leaves the outermost ring of the grid untouched and
    /// is at least two cells wide and two cells high.
    pub open spec fn room_fits(&self, r: Rect) -> bool {
        &&& 0 <= r.x1
        &&& 0 <= r.y1
        &&& r.x2 <= self.width - 2
        &&& r.y2 <= self.height - 2
        &&& r.x2 - r.x1 >= 2
        &&& r.y2 - r.y1 >= 2
    }

    /// A candidate is accepted when it fits and overlaps no room placed before.
    pub open spec fn accepts(&self, candidate: Rect) -> bool {
        &&& self.room_fits(candidate)
        &&& forall|i: int|
            0 <= i < self.rooms@.len() ==> !candidate.overlaps(#[trigger] self.rooms@[i])
    }

    /// Every cell on the outermost ring of the grid is wall.
    pub open spec fn edge_is_wall(&self) -> bool {
        forall|x: int, y: int|
            self.in_bounds(x, y) && (x == 0 || y == 0 || x == self.width - 1 || y == self.height
                - 1) ==> #[trigger] self.tile_at(x, y) == TileType::Wall
    }

    /// The cell `(x, y)` belongs to room `i`, or, for a room after the first, to
    /// one of the two corridors that can join the center of the room before it
    /// to its own center.
    pub open spec fn room_or_corridor(&self, i: int, x: int, y: int) -> bool {
        ||| self.rooms@[i].contains_cell(x, y)
        ||| (i > 0 && on_corridor(
            self.rooms@[i - 1].center_spec(),
            self.rooms@[i].center_spec(),
            true,
            x,
            y,
        ))
        ||| (i > 0 && on_corridor(
            self.rooms@[i - 1].center_spec(),
            self.rooms@[i].center_spec(),
            false,
            x,
            y,
        ))
    }

    /// There is floor only where a room or a corridor between two rooms placed
    /// one after the other was laid.
    pub open spec fn floor_is_carved(&self) -> bool {
        forall|x: int, y: int| #[trigger]
            self.is_floor(x, y) ==> exists|i: int|
                0 <= i < self.rooms@.len() && #[trigger] self.room_or_corridor(i, x, y)
    }

    /// What holds of a grid that rooms were placed on one by one: each room
    /// fits and is all floor, no two rooms overlap, the center of every room is
    /// connected to the center of the first, the edge of the grid is wall, and
    /// there is floor only where a room or a corridor was laid.
    pub open spec fn well_built(&self) -> bool {
        &&& forall|i: int|
            0 <= i < self.rooms@.len() ==> self.room_fits(#[trigger] self.rooms@[i])
                && self.room_is_floor(self.rooms@[i])
        &&& forall|i: int, j: int|
            0 <= i < j < self.rooms@.len() ==> !(#[trigger] self.rooms@[i]).overlaps(
                #[trigger] self.rooms@[j],
            )
        &&& forall|i: int|
            0 <= i < self.rooms@.len() ==> self.connected(
                (#[trigger] self.rooms@[i]).center_spec(),
                self.rooms@[0].center_spec(),
            )
        &&& self.edge_is_wall()
        &&& self.floor_is_carved()
    }

    /// True exactly when `candidate` fits the grid and overlaps none of the
    /// rooms placed so far.
    pub fn can_place(&self, candidate: &Rect) -> (b: bool)
        ensures
            b == self.accepts(*candidate),
    {
        if candidate.x1 < 0 || candidate.y1 < 0 {
            return false;
        }
        if self.width < 2 || self.height < 2 || candidate.x2 > self.width - 2 || candidate.y2
            > self.height - 2 {
            return false;
        }
        if candidate.x2 < 2 || candidate.y2 < 2 || candidate.x2 - 2 < candidate.x1 || candidate.y2
            - 2 < candidate.y1 {
            return false;
        }
        let mut i: usize = 0;
        while i < self.rooms.len()
            invariant
                i <= self.rooms@.len(),
                forall|k: int| 0 <= k < i ==> !candidate.overlaps(#[trigger] self.rooms@[k]),
            decreases self.rooms@.len() - i,
        {
            if candidate.intersect(&self.rooms[i]) {
                return false;
            }
            i = i + 1;
        }
        true
    }

    /// Lays a corridor of floor from `from` to `to`: along the row of `from` and
    /// then the column of `to` with `horizontal_first`, along the column of `from`
    /// and then the row of `to` without. Where both ends are cells of the grid,
    /// they are connected afterwards.
    pub fn carve_corridor(&mut self, from: (i32, i32), to: (i32, i32), horizontal_first: bool)
        requires
            old(self).wf(),
        ensures
            final(self).wf(),
            final(self).same_but_tiles(*old(self)),
            forall|x: int, y: int|
                #![trigger final(self).tile_at(x, y)]
                final(self).in_bounds(x, y) ==> final(self).tile_at(x, y) == if on_corridor(
                    (from.0 as int, from.1 as int),
                    (to.0 as int, to.1 as int),
                    horizontal_first,
                    x,
                    y,
                ) {
                    TileType::Floor
                } else {
                    old(self).tile_at(x, y)
                },
            old(self).in_bounds(from.0 as int, from.1 as int) && old(self).in_bounds(
                to.0 as int,
                to.1 as int,
            ) ==> final(self).connected((from.0 as int, from.1 as int), (to.0 as int, to.1 as int)),
    {
        let (prev_x, prev_y) = from;
        let (new_x, new_y) = to;
        if horizontal_first {
            self.apply_horizontal_tunnel(prev_x, new_x, prev_y);
            let ghost with_row = *self;
            self.apply_vertical_tunnel(prev_y, new_y, new_x);
            proof {
                if self.in_bounds(prev_x as int, prev_y as int) && self.in_bounds(
                    new_x as int,
                    new_y as int,
                ) {
                    assert forall|x: int|
                        (prev_x <= x <= new_x || new_x <= x <= prev_x) implies #[trigger] self.is_floor(
                        x,
                        prev_y as int,
                    ) by {
                        assert(with_row.tile_at(x, prev_y as int) == TileType::Floor);
                        assert(self.tile_at(x, prev_y as int) == TileType::Floor);
                    }
                    lemma_row_connected(*self, prev_y as int, prev_x as int, new_x as int);
                    assert forall|y: int|
                        (prev_y <= y <= new_y || new_y <= y <= prev_y) implies #[trigger] self.is_floor(
                        new_x as int,
                        y,
                    ) by {
                        assert(self.tile_at(new_x as int, y) == TileType::Floor);
                    }
                    lemma_column_connected(*self, new_x as int, prev_y as int, new_y as int);
                    lemma_connected_trans(
                        *self,
                        (prev_x as int, prev_y as int),
                        (new_x as int, prev_y as int),
                        (new_x as int, new_y as int),
                    );
                }
                assert forall|x: int, y: int|
                    #![trigger self.tile_at(x, y)]
                    self.in_bounds(x, y) implies self.tile_at(x, y) == if on_corridor(
                    (from.0 as int, from.1 as int),
                    (to.0 as int, to.1 as int),
                    horizontal_first,
                    x,
                    y,
                ) {
                    TileType::Floor
                } else {
                    old(self).tile_at(x, y)
                } by {
                    assert(with_row.in_bounds(x, y));
                }
            }
        } else {
            self.apply_vertical_tunnel(prev_y, new_y, prev_x);
            let ghost with_column = *self;
            self.apply_horizontal_tunnel(prev_x, new_x, new_y);
            proof {
                if self.in_bounds(prev_x as int, prev_y as int) && self.in_bounds(
                    new_x as int,
                    new_y as int,
                ) {
                    assert forall|y: int|
                        (prev_y <= y <= new_y || new_y <= y <= prev_y) implies #[trigger] self.is_floor(
                        prev_x as int,
                        y,
                    ) by {
                        assert(with_column.tile_at(prev_x as int, y) == TileType::Floor);
                        assert(self.tile_at(prev_x as int, y) == TileType::Floor);
                    }
                    lemma_column_connected(*self, prev_x as int, prev_y as int, new_y as int);
                    assert forall|x: int|
                        (prev_x <= x <= new_x || new_x <= x <= prev_x) implies #[trigger] self.is_floor(
                        x,
                        new_y as int,
                    ) by {
                        assert(self.tile_at(x, new_y as int) == TileType::Floor);
                    }
                    lemma_row_connected(*self, new_y as int, prev_x as int, new_x as int);
                    lemma_connected_trans(
                        *self,
                        (prev_x as int, prev_y as int),
                        (prev_x as int, new_y as int),
                        (new_x as int, new_y as int),
                    );
                }
                assert forall|x: int, y: int|
                    #![trigger self.tile_at(x, y)]
                    self.in_bounds(x, y) implies self.tile_at(x, y) == if on_corridor(
                    (from.0 as int, from.1 as int),
                    (to.0 as int, to.1 as int),
                    horizontal_first,
                    x,
                    y,
                ) {
                    TileType::Floor
                } else {
                    old(self).tile_at(x, y)
                } by {
                    assert(with_column.in_bounds(x, y));
                }
            }
        }
    }

    /// Tries to add the room `candidate`. It is added exactly when `accepts`
    /// holds; otherwise nothing changes. An added room is laid out as floor,
    /// and, if it is not the first, a corridor is laid from the center of the room
    /// placed last to its own center, leaving along the row when
    /// `horizontal_first` is set and along the column otherwise. A grid that
    /// was well built stays so.
    pub fn place_room(&mut self, candidate: Rect, horizontal_first: bool) -> (placed: bool)
        requires
            old(self).wf(),
        ensures
            placed == old(self).accepts(candidate),
            !placed ==> *final(self) == *old(self),
            placed ==> final(self).same_but_rooms_and_tiles(*old(self)),
            placed ==> final(self).rooms@ == old(self).rooms@.push(candidate),
            placed ==> forall|x: int, y: int|
                #![trigger final(self).tile_at(x, y)]
                final(self).in_bounds(x, y) ==> final(self).tile_at(x, y) == if candidate.contains_cell(
                    x,
                    y,
                ) || (old(self).rooms@.len() > 0 && on_corridor(
                    old(self).rooms@[old(self).rooms@.len() - 1].center_spec(),
                    candidate.center_spec(),
                    horizontal_first,
                    x,
                    y,
                )) {
                    TileType::Floor
                } else {
                    old(self).tile_at(x, y)
                },
            final(self).wf(),
            old(self).well_built() ==> final(self).well_built(),
    {
        if !self.can_place(&candidate) {
            return false;
        }
        let ghost before = *self;
        let center: (i32, i32) = candidate.center();
        proof {
            lemma_center_inside(candidate);
        }
        self.apply_room_to_map(&candidate);
        let ghost with_room = *self;
        if self.rooms.len() > 0 {
            let last: usize = self.rooms.len() - 1;
            let previous: (i32, i32) = self.rooms[last].center();
            proof {
                if before.well_built() {
                    assert(before.room_fits(before.rooms@[last as int]));
                    lemma_center_inside(before.rooms@[last as int]);
                }
            }
            self.carve_corridor(previous, center, horizontal_first);
        }
        let ghost carved = *self;
        self.rooms.push(candidate);
        proof {
            assert forall|x: int, y: int|
                #![trigger self.tile_at(x, y)]
                self.in_bounds(x, y) implies self.tile_at(x, y) == if candidate.contains_cell(x, y)
                || (before.rooms@.len() > 0 && on_corridor(
                before.rooms@[before.rooms@.len() - 1].center_spec(),
                candidate.center_spec(),
                horizontal_first,
                x,
                y,
            )) {
                TileType::Floor
            } else {
                before.tile_at(x, y)
            } by {
                assert(self.tile_at(x, y) == carved.tile_at(x, y));
                assert(with_room.in_bounds(x, y));
            }
            if before.well_built() {
                if before.rooms@.len() > 0 {
                    let cp = before.rooms@[before.rooms@.len() - 1].center_spec();
                    lemma_same_tiles_keep_floor(carved, *self);
                    lemma_connected_kept(carved, *self, cp, candidate.center_spec());
                }
                lemma_placed_well_built(before, *self, candidate, horizontal_first);
            }
        }
        true
    }
}

impl GameMap {
    /// Builds a dungeon on a grid of the given size. The grid starts as wall
    /// everywhere. Then, `MAX_ROOMS` times, a room with sides drawn from
    /// `MIN_SIZE..MAX_SIZE` is drawn at a random place and handed to
    /// `place_room`, with a coin flip for the way the corridor bends. A grid too
    /// small for the room that was drawn lets the attempt pass.
    ///
    /// Whatever the generator draws, the result is well built, so every room can
    /// be reached from the first; and on a grid with sides of at least
    /// `MAX_SIZE + 1` the first attempt always places a room.
    pub fn generate(width: i32, height: i32, rng: &mut rltk::RandomNumberGenerator) -> (grid:
        GameMap)
        requires
            0 < width <= MAX_SIDE,
            0 < height <= MAX_SIDE,
            width * height <= i32::MAX,
        ensures
            grid.wf(),
            grid.well_built(),
            grid.width == width,
            grid.height == height,
            grid.rooms@.len() <= MAX_ROOMS,
            width > MAX_SIZE && height > MAX_SIZE ==> grid.rooms@.len() >= 1,
            forall|i: int|
                0 <= i < grid.rooms@.len() ==> {
                    let r = #[trigger] grid.rooms@[i];
                    MIN_SIZE <= r.x2 - r.x1 < MAX_SIZE && MIN_SIZE <= r.y2 - r.y1 < MAX_SIZE
                },
            forall|i: int| 0 <= i < grid.revealed_tiles@.len() ==> !grid.revealed_tiles@[i],
            forall|i: int| 0 <= i < grid.visible_tiles@.len() ==> !grid.visible_tiles@[i],
    {
        let mut grid = GameMap::new(width, height);
        let mut attempt: i32 = 0;
        while attempt < MAX_ROOMS
            invariant
                0 <= attempt <= MAX_ROOMS,
                grid.wf(),
                grid.well_built(),
                grid.width == width,
                grid.height == height,
                grid.rooms@.len() <= attempt,
                attempt > 0 && width > MAX_SIZE && height > MAX_SIZE ==> grid.rooms@.len() >= 1,
                forall|i: int|
                    0 <= i < grid.rooms@.len() ==> {
                        let r = #[trigger] grid.rooms@[i];
                        MIN_SIZE <= r.x2 - r.x1 < MAX_SIZE && MIN_SIZE <= r.y2 - r.y1 < MAX_SIZE
                    },
                forall|i: int| 0 <= i < grid.revealed_tiles@.len() ==> !grid.revealed_tiles@[i],
                forall|i: int| 0 <= i < grid.visible_tiles@.len() ==> !grid.visible_tiles@[i],
            decreases MAX_ROOMS - attempt,
        {
            let w: i32 = random::range(rng, MIN_SIZE, MAX_SIZE);
            let h: i32 = random::range(rng, MIN_SIZE, MAX_SIZE);
            if width - w - 1 >= 1 && height - h - 1 >= 1 {
                let x: i32 = random::roll_dice(rng, 1, width - w - 1) - 1;
                let y: i32 = random::roll_dice(rng, 1, height - h - 1) - 1;
                let candidate = Rect::new(x, y, w, h);
                if grid.can_place(&candidate) {
                    let horizontal_first: bool = grid.rooms.len() > 0 && random::range(rng, 0, 2)
                        == 1;
                    let ghost before = grid;
                    let placed: bool = grid.place_room(candidate, horizontal_first);
                    proof {
                        assert forall|i: int| 0 <= i < grid.rooms@.len() implies {
                            let r = #[trigger] grid.rooms@[i];
                            MIN_SIZE <= r.x2 - r.x1 < MAX_SIZE && MIN_SIZE <= r.y2 - r.y1
                                < MAX_SIZE
                        } by {
                            if i < before.rooms@.len() {
                                assert(grid.rooms@[i] == before.rooms@[i]);
                            }
                        }
                    }
                }
            }
            attempt = attempt + 1;
        }
        grid
    }

    /// Builds the dungeon the game is played on: 80 cells wide and 50 high.
    pub fn new_map_rooms_and_corridors(rng: &mut rltk::RandomNumberGenerator) -> (grid: GameMap)
        ensures
            grid.wf(),
            grid.well_built(),
            grid.width == 80,
            grid.height == 50,
            1 <= grid.rooms@.len() <= MAX_ROOMS,
            forall|i: int| 0 <= i < grid.revealed_tiles@.len() ==> !grid.revealed_tiles@[i],
            forall|i: int| 0 <= i < grid.visible_tiles@.len() ==> !grid.visible_tiles@[i],
    {
        GameMap::generate(80, 50, rng)
    }
}

/// On a well built grid every cell of every room can be reached from every cell
/// of every other room, the first room included, by stepping over floor only.
pub proof fn lemma_rooms_connected(m: GameMap, i: int, j: int, a: (int, int), b: (int, int))
    requires
        m.well_built(),
        0 <= i < m.rooms@.len(),
        0 <= j < m.rooms@.len(),
        m.rooms@[i].contains_cell(a.0, a.1),
        m.rooms@[j].contains_cell(b.0, b.1),
    ensures
        m.connected(a, b),
{
    let ri = m.rooms@[i];
    let rj = m.rooms@[j];
    let c0 = m.rooms@[0].center_spec();
    assert(m.room_fits(ri) && m.room_is_floor(ri));
    assert(m.room_fits(rj) && m.room_is_floor(rj));
    lemma_center_inside(ri);
    lemma_center_inside(rj);
    crate::connectivity::lemma_room_connected(m, ri, a, ri.center_spec());
    crate::connectivity::lemma_room_connected(m, rj, rj.center_spec(), b);
    assert(m.connected(ri.center_spec(), c0));
    assert(m.connected(rj.center_spec(), c0));
    lemma_connected_sym(m, rj.center_spec(), c0);
    lemma_connected_trans(m, a, ri.center_spec(), c0);
    lemma_connected_trans(m, a, c0, rj.center_spec());
    lemma_connected_trans(m, a, rj.center_spec(), b);
}

/// Two grids of one size with the same tiles have the same floor.
pub proof fn lemma_same_tiles_keep_floor(m: GameMap, later: GameMap)
    requires
        m.width == later.width,
        m.height == later.height,
        m.tiles@ == later.tiles@,
    ensures
        m.floor_kept_by(later),
{
    assert forall|x: int, y: int| m.is_floor(x, y) implies #[trigger] later.is_floor(x, y) by {
        assert(m.tile_at(x, y) == later.tile_at(x, y));
    }
}

/// A grid that was well built stays so when an accepted room is laid out on it
/// and a corridor joins the room to the one placed before it.
proof fn lemma_placed_well_built(
    before: GameMap,
    after: GameMap,
    candidate: Rect,
    horizontal_first: bool,
)
    requires
        before.wf(),
        before.well_built(),
        before.accepts(candidate),
        after.width == before.width,
        after.height == before.height,
        after.rooms@ == before.rooms@.push(candidate),
        forall|x: int, y: int|
            #![trigger after.tile_at(x, y)]
            after.in_bounds(x, y) ==> after.tile_at(x, y) == if candidate.contains_cell(x, y) || (
            before.rooms@.len() > 0 && on_corridor(
                before.rooms@[before.rooms@.len() - 1].center_spec(),
                candidate.center_spec(),
                horizontal_first,
                x,
                y,
            )) {
                TileType::Floor
            } else {
                before.tile_at(x, y)
            },
        before.rooms@.len() > 0 ==> after.connected(
            before.rooms@[before.rooms@.len() - 1].center_spec(),
            candidate.center_spec(),
        ),
    ensures
        after.well_built(),
{
    let n = before.rooms@.len() as int;
    let cn = candidate.center_spec();
    lemma_center_inside(candidate);
    assert forall|x: int, y: int| before.is_floor(x, y) implies #[trigger] after.is_floor(x, y) by {
        assert(after.tile_at(x, y) == TileType::Floor);
    }
    assert(before.floor_kept_by(after));
    assert forall|x: int, y: int| candidate.contains_cell(x, y) implies #[trigger] after.is_floor(
        x,
        y,
    ) by {
        assert(after.tile_at(x, y) == TileType::Floor);
    }
    assert(after.room_is_floor(candidate));
    if n == 0 {
        lemma_connected_refl(after, cn);
    } else {
        let cp = before.rooms@[n - 1].center_spec();
        let c0 = before.rooms@[0].center_spec();
        lemma_connected_sym(after, cp, cn);
        assert(before.connected(cp, c0));
        lemma_connected_kept(before, after, cp, c0);
        lemma_connected_trans(after, cn, cp, c0);
    }
    assert forall|i: int| 0 <= i < after.rooms@.len() implies after.connected(
        (#[trigger] after.rooms@[i]).center_spec(),
        after.rooms@[0].center_spec(),
    ) by {
        if i < n {
            assert(after.rooms@[i] == before.rooms@[i]);
            assert(after.rooms@[0] == before.rooms@[0]);
            lemma_connected_kept(
                before,
                after,
                before.rooms@[i].center_spec(),
                before.rooms@[0].center_spec(),
            );
        }
    }
    assert forall|i: int| 0 <= i < after.rooms@.len() implies after.room_fits(
        #[trigger] after.rooms@[i],
    ) && after.room_is_floor(after.rooms@[i]) by {
        if i < n {
            let r = before.rooms@[i];
            assert(after.rooms@[i] == r);
            assert(before.room_fits(r) && before.room_is_floor(r));
            assert forall|x: int, y: int| r.contains_cell(x, y) implies #[trigger] after.is_floor(
                x,
                y,
            ) by {
                assert(before.is_floor(x, y));
            }
        }
    }
    assert forall|i: int, j: int| 0 <= i < j < after.rooms@.len() implies !(
    #[trigger] after.rooms@[i]).overlaps(#[trigger] after.rooms@[j]) by {
        assert(after.rooms@[i] == before.rooms@[i]);
        if j < n {
            assert(after.rooms@[j] == before.rooms@[j]);
        } else {
            assert(!candidate.overlaps(before.rooms@[i]));
        }
    }
    assert forall|x: int, y: int|
        after.in_bounds(x, y) && (x == 0 || y == 0 || x == after.width - 1 || y == after.height
            - 1) implies #[trigger] after.tile_at(x, y) == TileType::Wall by {
        assert(before.tile_at(x, y) == TileType::Wall);
        if n > 0 {
            assert(before.room_fits(before.rooms@[n - 1]));
            lemma_center_inside(before.rooms@[n - 1]);
        }
    }
    assert forall|x: int, y: int| #[trigger] after.is_floor(x, y) implies exists|i: int|
        0 <= i < after.rooms@.len() && #[trigger] after.room_or_corridor(i, x, y) by {
        assert(after.tile_at(x, y) == TileType::Floor);
        if candidate.contains_cell(x, y) || (n > 0 && on_corridor(
            before.rooms@[n - 1].center_spec(),
            candidate.center_spec(),
            horizontal_first,
            x,
            y,
        )) {
            assert(after.rooms@[n] == candidate);
            if n > 0 {
                assert(after.rooms@[n - 1] == before.rooms@[n - 1]);
            }
            assert(after.room_or_corridor(n, x, y));
        } else {
            assert(before.is_floor(x, y));
            let i = choose|i: int|
                0 <= i < before.rooms@.len() && #[trigger] before.room_or_corridor(i, x, y);
            assert(after.rooms@[i] == before.rooms@[i]);
            if i > 0 {
                assert(after.rooms@[i - 1] == before.rooms@[i - 1]);
            }
            assert(after.room_or_corridor(i, x, y));
        }
    }
}

/// On a well built grid the center of every room is a floor cell of the grid:
/// a place to stand.
pub proof fn lemma_room_center_is_floor(m: GameMap, i: int)
    requires
        m.well_built(),
        0 <= i < m.rooms@.len(),
    ensures
        m.is_floor(m.rooms@[i].center_spec().0, m.rooms@[i].center_spec().1),
{
    let r = m.rooms@[i];
    assert(m.room_fits(r) && m.room_is_floor(r));
    lemma_center_inside(r);
}

} // verus!
