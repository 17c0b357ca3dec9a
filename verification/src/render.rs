use crate::game_map::lemma_index_has_cell;
use crate::game_map::GameMap;
use crate::game_map::TileType;
use crate::world::Components;
use crate::world::World;
use vstd::prelude::*;

verus! {

/// Calls `rltk::to_cp437`, which looks a character up in code page 437. Its
/// table maps each printable ASCII character, space to tilde, to its own code;
/// the contract says that much and leaves the rest of the table unsaid.
#[verifier::external_body]
pub(crate) fn to_cp437(c: char) -> (glyph: u16)
    ensures
        32 <= c as u32 <= 126 ==> glyph == c as u32,
{
    rltk::to_cp437(c)
}

/// The glyph of a floor tile, a full stop.
pub const FLOOR_GLYPH: u16 = 46;

/// The glyph of a wall tile, a hash sign.
pub const WALL_GLYPH: u16 = 35;

/// One tile as it is to be drawn: where, with which glyph, and whether at
/// full brightness or dimmed.
#[derive(Clone, Copy, Debug, PartialEq, Eq, Structural)]
pub struct DrawnTile {
    pub x: i32,
    pub y: i32,
    pub glyph: u16,
    pub tile: TileType,
    /// Set when the player sees the tile now; a tile that was only seen
    /// earlier is drawn dimmed.
    pub lit: bool,
}

/// How the cell with index `i` is drawn.
pub open spec fn drawing_of(grid: GameMap, i: int) -> DrawnTile {
    DrawnTile {
        x: (i % (grid.width as int)) as i32,
        y: (i / (grid.width as int)) as i32,
        glyph: if grid.tiles@[i] == TileType::Floor {
            FLOOR_GLYPH
        } else {
            WALL_GLYPH
        },
        tile: grid.tiles@[i],
        lit: grid.visible_tiles@[i],
    }
}

/// The drawings of the revealed cells among the first `n`, in the order of
/// their indices.
pub open spec fn drawn_through(grid: GameMap, n: int) -> Seq<DrawnTile> {
    Seq::new(n as nat, |i: int| i).filter(|i: int| grid.revealed_tiles@[i]).map_values(
        |i: int| drawing_of(grid, i),
    )
}

/// Whether an entity is to be drawn: it has a place and a look, and the player
/// sees the cell it stands on.
pub open spec fn shown(c: Components, grid: GameMap) -> bool {
    c.renderable is Some && (c.position matches Some(p) && grid.visible_at(p.x as int, p.y as int))
}

/// `found` lists, in rising order, exactly the indices of the entities that
/// are to be drawn.
pub open spec fn lists_shown(found: Seq<usize>, entities: Seq<Components>, grid: GameMap) -> bool {
    &&& forall|k: int|
        0 <= k < found.len() ==> (#[trigger] found[k]) < entities.len() && shown(
            entities[found[k] as int],
            grid,
        )
    &&& forall|k: int, l: int|
        0 <= k < l < found.len() ==> (#[trigger] found[k]) < (#[trigger] found[l])
    &&& forall|i: int|
        0 <= i < entities.len() && shown(#[trigger] entities[i], grid) ==> exists|k: int|
            0 <= k < found.len() && #[trigger] found[k] == i
}

/// What of the dungeon is to be drawn: every revealed tile, row by row, a
/// full stop for floor and a hash sign for wall, lit if in view now. Tiles
/// never seen are left out.
pub fn draw_map(ecs: &World) -> (tiles: Vec<DrawnTile>)
    requires
        ecs.map.wf(),
    ensures
        tiles@ == drawn_through(ecs.map, ecs.map.tiles@.len() as int),
{
    let grid = &ecs.map;
    let floor: u16 = to_cp437('.');
    let wall: u16 = to_cp437('#');
    let n: usize = grid.tiles.len();
    let width: usize = grid.width as usize;
    let mut tiles: Vec<DrawnTile> = Vec::new();
    let ghost revealed = |i: int| grid.revealed_tiles@[i];
    let ghost drawing = |i: int| drawing_of(*grid, i);
    let mut idx: usize = 0;
    proof {
        assert(Seq::new(0nat, |i: int| i).filter(revealed) =~= Seq::<int>::empty()) by {
            reveal(Seq::filter);
        }
    }
    while idx < n
        invariant
            idx <= n,
            grid.wf(),
            n == grid.tiles@.len(),
            width == grid.width,
            floor == FLOOR_GLYPH,
            wall == WALL_GLYPH,
            revealed == |i: int| grid.revealed_tiles@[i],
            drawing == |i: int| drawing_of(*grid, i),
            tiles@ == Seq::new(idx as nat, |i: int| i).filter(revealed).map_values(drawing),
        decreases n - idx,
    {
        proof {
            lemma_index_has_cell(grid.width as int, grid.height as int, idx as int);
            let upto = Seq::new(idx as nat, |i: int| i);
            assert(Seq::new((idx + 1) as nat, |i: int| i) =~= upto.push(idx as int));
            upto.lemma_filter_push(idx as int, revealed);
            assert(upto.filter(revealed).push(idx as int).map_values(drawing) =~= upto.filter(
                revealed,
            ).map_values(drawing).push(drawing(idx as int)));
        }
        if grid.revealed_tiles[idx] {
            let tile: TileType = grid.tiles[idx];
            let glyph: u16 = match tile {
                TileType::Floor => floor,
                TileType::Wall => wall,
            };
            tiles.push(
                DrawnTile {
                    x: (idx % width) as i32,
                    y: (idx / width) as i32,
                    glyph,
                    tile,
                    lit: grid.visible_tiles[idx],
                },
            );
        }
        idx = idx + 1;
    }
    tiles
}

/// Which entities are to be drawn: those with a place and a look that stand
/// on a cell the player sees now.
pub fn draw_entities(ecs: &World) -> (found: Vec<usize>)
    requires
        ecs.wf(),
    ensures
        lists_shown(found@, ecs.entities@, ecs.map),
{
    let mut found: Vec<usize> = Vec::new();
    let n: usize = ecs.entities.len();
    let mut i: usize = 0;
    while i < n
        invariant
            i <= n,
            n == ecs.entities@.len(),
            ecs.wf(),
            forall|k: int|
                0 <= k < found@.len() ==> (#[trigger] found@[k]) < i && shown(
                    ecs.entities@[found@[k] as int],
                    ecs.map,
                ),
            forall|k: int, l: int|
                0 <= k < l < found@.len() ==> (#[trigger] found@[k]) < (#[trigger] found@[l]),
            forall|j: int|
                0 <= j < i && shown(#[trigger] ecs.entities@[j], ecs.map) ==> exists|k: int|
                    0 <= k < found@.len() && #[trigger] found@[k] == j,
        decreases n - i,
    {
        let c = &ecs.entities[i];
        assert(c.fits(ecs.map));
        let in_view: bool = match c.position {
            Some(p) => c.renderable.is_some() && ecs.map.visible_tiles[ecs.map.xy_idx(p.x, p.y)],
            None => false,
        };
        if in_view {
            let ghost earlier = found@;
            found.push(i);
            proof {
                assert(found@[earlier.len() as int] == i);
                assert forall|j: int|
                    0 <= j < i + 1 && shown(#[trigger] ecs.entities@[j], ecs.map) implies exists|
                    k: int,
                | 0 <= k < found@.len() && #[trigger] found@[k] == j by {
                    if j < i {
                        let k = choose|k: int| 0 <= k < earlier.len() && #[trigger] earlier[k] == j;
                        assert(found@[k] == j);
                    }
                }
            }
        }
        i = i + 1;
    }
    found
}

} // verus!
