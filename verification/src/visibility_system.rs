use crate::components::cells_of;
use crate::components::Coord;
use crate::components::Position;
use crate::components::Viewshed;
use crate::field_of_view::field_of_view;
use crate::field_of_view::visible_from;
use crate::field_of_view::MAX_RANGE;
use crate::fog::clip_to_grid;
use crate::fog::lemma_filter_keeps_all;
use crate::game_map::GameMap;
use crate::world::Components;
use crate::world::World;
use vstd::prelude::*;

verus! {

/// Brings the views of the entities up to date and, from the player's view,
/// the two visibility layers of the dungeon.
pub struct VisibilitySystem {}

/// Whether an entity suits a grid depends on the sides and the tiles of the
/// grid only.
pub proof fn lemma_fits_same_grid(c: Components, m: GameMap, later: GameMap)
    requires
        c.fits(m),
        m.width == later.width,
        m.height == later.height,
        m.tiles@ == later.tiles@,
    ensures
        c.fits(later),
        c.view(m) == c.view(later),
{
    assert(m.opaque() == later.opaque());
}

/// What the visibility system makes of one entity on the grid `grid`: a view
/// that was out of date, on an entity that has a place, now holds each cell in
/// view from there once and is up to date; every other part is as before, and
/// an entity whose view was up to date, or that has no place or no view, is
/// left as it was.
pub open spec fn refreshed(after: Components, before: Components, grid: GameMap) -> bool {
    &&& after.position == before.position
    &&& after.renderable == before.renderable
    &&& after.player == before.player
    &&& after.monster == before.monster
    &&& after.name == before.name
    &&& if before.stale() {
        &&& after.viewshed matches Some(w)
        &&& w.range == before.viewshed->0.range
        &&& !w.dirty
        &&& w.visible_tiles@.no_duplicates()
        &&& cells_of(w.visible_tiles@) == before.view(grid)
    } else {
        after.viewshed == before.viewshed
    }
}

/// Among the first `n` entities, `k` is the last player whose view is out of
/// date.
pub open spec fn last_stale_player(entities: Seq<Components>, k: int, n: int) -> bool {
    &&& 0 <= k < n
    &&& entities[k].stale_player()
    &&& forall|j: int| k < j < n ==> !(#[trigger] entities[j]).stale_player()
}

/// Among the first `n` entities, some player whose view is out of date has the
/// cell `(x, y)` in view.
pub open spec fn newly_seen(entities: Seq<Components>, grid: GameMap, n: int, x: int, y: int) -> bool {
    exists|j: int|
        0 <= j < n && (#[trigger] entities[j]).stale_player() && entities[j].view(grid).contains(
            (x, y),
        )
}

/// What one run of the visibility system makes of the world `before`: its
/// entities become `entities` and its grid becomes `grid`.
///
/// Each entity is `refreshed`. The grid keeps its sides, tiles and rooms, and
/// nothing that was revealed is hidden. If no player's view was out of date the
/// grid is as it was. Otherwise a cell is in view exactly when the last player
/// whose view was out of date has it in view, and a cell is revealed exactly
/// when it was revealed before or some such player has it in view.
pub open spec fn brought_up_to_date(before: World, entities: Seq<Components>, grid: GameMap) -> bool {
    &&& grid.same_but_layers(before.map)
    &&& before.map.revealed_kept_by(grid)
    &&& entities.len() == before.entities@.len()
    &&& forall|i: int|
        0 <= i < entities.len() ==> refreshed(#[trigger] entities[i], before.entities@[i], before.map)
    &&& (forall|j: int|
        0 <= j < before.entities@.len() ==> !(#[trigger] before.entities@[j]).stale_player())
        ==> grid == before.map
    &&& forall|k: int, x: int, y: int|
        last_stale_player(before.entities@, k, before.entities@.len() as int) && grid.in_bounds(
            x,
            y,
        ) ==> #[trigger] grid.visible_at(x, y) == (#[trigger] before.entities@[k]).view(
            before.map,
        ).contains((x, y))
    &&& forall|x: int, y: int|
        #![trigger grid.revealed_at(x, y)]
        grid.in_bounds(x, y) ==> grid.revealed_at(x, y) == (before.map.revealed_at(x, y)
            || newly_seen(before.entities@, before.map, before.entities@.len() as int, x, y))
}

/// After a run of the visibility system no view is out of date: every entity
/// with a place and a view holds exactly the cells in view from where it
/// stands, whether its view was worked out in this run or in an earlier one.
pub proof fn lemma_all_views_up_to_date(before: World, entities: Seq<Components>, grid: GameMap, i: int)
    requires
        before.wf(),
        brought_up_to_date(before, entities, grid),
        0 <= i < entities.len(),
        entities[i].sees(),
    ensures
        !entities[i].viewshed->0.dirty,
        cells_of(entities[i].viewshed->0.visible_tiles@) == entities[i].view(grid),
{
    let was = before.entities@[i];
    assert(refreshed(entities[i], was, before.map));
    assert(was.fits(before.map));
    assert(before.map.opaque() == grid.opaque());
}

impl VisibilitySystem {
    /// Brings one view up to date. A view that is not marked out of date is
    /// left alone, and so is the grid. Otherwise the view becomes the cells
    /// that `field_of_view` finds from `position`, clipped to the grid, and is
    /// marked up to date; and if the view is the player's, the grid shows
    /// exactly these cells as in view and adds them to what is revealed.
    pub fn refresh(viewshed: &mut Viewshed, position: Position, is_player: bool, grid: &mut GameMap)
        requires
            old(grid).wf(),
            old(grid).in_bounds(position.x as int, position.y as int),
            0 <= old(viewshed).range <= MAX_RANGE,
        ensures
            final(grid).wf(),
            final(grid).same_but_layers(*old(grid)),
            old(grid).revealed_kept_by(*final(grid)),
            final(viewshed).range == old(viewshed).range,
            !final(viewshed).dirty,
            !old(viewshed).dirty ==> *final(viewshed) == *old(viewshed),
            !(old(viewshed).dirty && is_player) ==> *final(grid) == *old(grid),
            old(viewshed).dirty ==> {
                &&& final(viewshed).visible_tiles@.no_duplicates()
                &&& cells_of(final(viewshed).visible_tiles@) == visible_from(
                    position.x as int,
                    position.y as int,
                    old(viewshed).range as int,
                    old(grid).width as int,
                    old(grid).height as int,
                    old(grid).opaque(),
                )
                &&& forall|i: int|
                    0 <= i < final(viewshed).visible_tiles@.len() ==> old(grid).in_bounds(
                        (#[trigger] final(viewshed).visible_tiles@[i]).x as int,
                        final(viewshed).visible_tiles@[i].y as int,
                    )
            },
            old(viewshed).dirty && is_player ==> {
                &&& forall|x: int, y: int|
                    #![trigger final(grid).visible_at(x, y)]
                    final(grid).in_bounds(x, y) ==> final(grid).visible_at(x, y) == cells_of(
                        final(viewshed).visible_tiles@,
                    ).contains((x, y))
                &&& forall|x: int, y: int|
                    #![trigger final(grid).revealed_at(x, y)]
                    final(grid).in_bounds(x, y) ==> final(grid).revealed_at(x, y) == (old(
                        grid,
                    ).revealed_at(x, y) || cells_of(final(viewshed).visible_tiles@).contains(
                        (x, y),
                    ))
            },
    {
        if viewshed.dirty {
            viewshed.dirty = false;
            viewshed.visible_tiles.clear();
            let found: Vec<Coord> = field_of_view(position.x, position.y, viewshed.range, grid);
            proof {
                lemma_filter_keeps_all(
                    found@,
                    |c: Coord| grid.in_bounds(c.x as int, c.y as int),
                );
            }
            viewshed.visible_tiles = clip_to_grid(found, grid);
            if is_player {
                grid.show(&viewshed.visible_tiles);
            }
        }
    }

    /// Runs the system once over every entity that has both a place and a
    /// view, in the order of their indices; the others take no part.
    ///
    /// What the world is afterwards is told by `brought_up_to_date`.
    pub fn run(&mut self, world: &mut World)
        requires
            old(world).wf(),
        ensures
            final(world).wf(),
            final(world).pending@ == old(world).pending@,
            brought_up_to_date(*old(world), final(world).entities@, final(world).map),
    {
        let n: usize = world.entities.len();
        let ghost before = old(world).entities@;
        let ghost grid0 = old(world).map;
        let ghost last: int = -1;
        let mut i: usize = 0;
        while i < n
            invariant
                i <= n,
                n == before.len(),
                before == old(world).entities@,
                grid0 == old(world).map,
                old(world).wf(),
                world.wf(),
                world.pending@ == old(world).pending@,
                world.map.same_but_layers(grid0),
                grid0.revealed_kept_by(world.map),
                world.entities@.len() == n,
                forall|j: int| 0 <= j < i ==> refreshed(#[trigger] world.entities@[j], before[j], grid0),
                forall|j: int| i <= j < n ==> #[trigger] world.entities@[j] == before[j],
                -1 <= last < i,
                last == -1 ==> world.map == grid0,
                last == -1 ==> forall|j: int| 0 <= j < i ==> !(#[trigger] before[j]).stale_player(),
                last >= 0 ==> last_stale_player(before, last, i as int),
                last >= 0 ==> forall|x: int, y: int|
                    #![trigger world.map.visible_at(x, y)]
                    world.map.in_bounds(x, y) ==> world.map.visible_at(x, y) == before[last].view(
                        grid0,
                    ).contains((x, y)),
                forall|x: int, y: int|
                    #![trigger world.map.revealed_at(x, y)]
                    world.map.in_bounds(x, y) ==> world.map.revealed_at(x, y) == (grid0.revealed_at(
                        x,
                        y,
                    ) || newly_seen(before, grid0, i as int, x, y)),
            decreases n - i,
        {
            let ghost entities_then = world.entities@;
            let ghost grid_then = world.map;
            let ghost e = before[i as int];
            assert(world.entities@[i as int] == e);
            assert(e.fits(world.map));
            let place: Option<Position> = world.entities[i].position;
            let is_player: bool = world.entities[i].player.is_some();
            if let Some(position) = place {
                let taken: Option<Viewshed> = world.entities[i].viewshed.take();
                if let Some(mut view) = taken {
                    let ghost was_dirty = view.dirty;
                    VisibilitySystem::refresh(&mut view, position, is_player, &mut world.map);
                    proof {
                        lemma_fits_same_grid(e, grid_then, grid0);
                        assert(grid_then.opaque() == grid0.opaque());
                        if !was_dirty {
                            assert(view == e.viewshed->0);
                        }
                    }
                    world.entities[i].viewshed = Some(view);
                }
            }
            proof {
                let now = world.entities@[i as int];
                assert(refreshed(now, e, grid0));
                assert forall|j: int| 0 <= j < world.entities@.len() implies (
                #[trigger] world.entities@[j]).fits(world.map) by {
                    if j != i {
                        assert(world.entities@[j] == entities_then[j]);
                        lemma_fits_same_grid(entities_then[j], grid_then, world.map);
                    } else {
                        lemma_fits_same_grid(e, grid_then, world.map);
                        lemma_fits_same_grid(e, grid_then, grid0);
                    }
                }
                assert forall|j: int| 0 <= j < world.pending@.len() implies (
                #[trigger] world.pending@[j]).fits(world.map) by {
                    lemma_fits_same_grid(world.pending@[j], grid_then, world.map);
                }
                assert forall|j: int| 0 <= j < i + 1 implies refreshed(
                    #[trigger] world.entities@[j],
                    before[j],
                    grid0,
                ) by {
                    if j < i {
                        assert(world.entities@[j] == entities_then[j]);
                    }
                }
                if e.stale_player() {
                    assert forall|x: int, y: int|
                        #![trigger world.map.revealed_at(x, y)]
                        world.map.in_bounds(x, y) implies world.map.revealed_at(x, y) == (
                    grid0.revealed_at(x, y) || newly_seen(before, grid0, i + 1, x, y)) by {
                        assert(grid_then.revealed_at(x, y) == (grid0.revealed_at(x, y)
                            || newly_seen(before, grid0, i as int, x, y)));
                        if newly_seen(before, grid0, i as int, x, y) {
                            let j = choose|j: int|
                                0 <= j < i && (#[trigger] before[j]).stale_player()
                                    && before[j].view(grid0).contains((x, y));
                            assert(0 <= j < i + 1 && before[j].stale_player());
                        }
                        if e.view(grid0).contains((x, y)) {
                            assert(before[i as int].stale_player());
                        }
                        if newly_seen(before, grid0, i + 1, x, y) {
                            let j = choose|j: int|
                                0 <= j < i + 1 && (#[trigger] before[j]).stale_player()
                                    && before[j].view(grid0).contains((x, y));
                            if j < i {
                                assert(newly_seen(before, grid0, i as int, x, y));
                            }
                        }
                    }
                    last = i as int;
                } else {
                    assert(world.map == grid_then);
                    assert forall|x: int, y: int|
                        #![trigger world.map.revealed_at(x, y)]
                        world.map.in_bounds(x, y) implies world.map.revealed_at(x, y) == (
                    grid0.revealed_at(x, y) || newly_seen(before, grid0, i + 1, x, y)) by {
                        if newly_seen(before, grid0, i as int, x, y) {
                            let j = choose|j: int|
                                0 <= j < i && (#[trigger] before[j]).stale_player()
                                    && before[j].view(grid0).contains((x, y));
                            assert(0 <= j < i + 1 && before[j].stale_player());
                        }
                        if newly_seen(before, grid0, i + 1, x, y) {
                            let j = choose|j: int|
                                0 <= j < i + 1 && (#[trigger] before[j]).stale_player()
                                    && before[j].view(grid0).contains((x, y));
                            assert(j < i);
                            assert(newly_seen(before, grid0, i as int, x, y));
                        }
                    }
                }
            }
            i = i + 1;
        }
        proof {
            assert forall|k: int, x: int, y: int|
                last_stale_player(before, k, n as int) && world.map.in_bounds(
                    x,
                    y,
                ) implies #[trigger] world.map.visible_at(x, y) == (#[trigger] before[k]).view(
                grid0,
            ).contains((x, y)) by {
                if last == -1 {
                    assert(!before[k].stale_player());
                } else if k < last {
                    assert(!before[last].stale_player());
                } else if k > last {
                    assert(!before[k].stale_player());
                }
            }
        }
    }
}

} // verus!
