use crate::components::cells_of;
use crate::components::Monster;
use crate::components::Name;
use crate::components::Player;
use crate::components::Position;
use crate::components::Renderable;
use crate::components::Viewshed;
use crate::field_of_view::visible_from;
use crate::field_of_view::MAX_RANGE;
use crate::game_map::GameMap;
use vstd::prelude::*;

verus! {

/// What one entity is made of. An entity has no data of its own: each part may
/// be there or not.
pub struct Components {
    pub position: Option<Position>,
    pub renderable: Option<Renderable>,
    pub player: Option<Player>,
    pub viewshed: Option<Viewshed>,
    pub monster: Option<Monster>,
    pub name: Option<Name>,
}

/// The entities, by index, those waiting to join them, and the dungeon.
pub struct World {
    pub entities: Vec<Components>,
    /// Entities that were asked for while the systems ran. They join
    /// `entities` when the step is over.
    pub pending: Vec<Components>,
    pub map: GameMap,
}

impl Components {
    /// The entity takes part in visibility: it has a place and a view.
    pub open spec fn sees(&self) -> bool {
        self.position is Some && self.viewshed is Some
    }

    /// The entity takes part in visibility and its view is out of date.
    pub open spec fn stale(&self) -> bool {
        self.sees() && self.viewshed->0.dirty
    }

    /// The entity is a player whose view is out of date.
    pub open spec fn stale_player(&self) -> bool {
        self.stale() && self.player is Some
    }

    /// The cells in view from where the entity stands, as far as it sees.
    pub open spec fn view(&self, grid: GameMap) -> Set<(int, int)> {
        visible_from(
            self.position->0.x as int,
            self.position->0.y as int,
            self.viewshed->0.range as int,
            grid.width as int,
            grid.height as int,
            grid.opaque(),
        )
    }

    /// The entity suits the grid: it stands on a cell of it; its range is within
    /// `0..=MAX_RANGE`; the cells of its view are cells of the grid, and, unless
    /// the view is marked out of date, they are the cells in view from where it
    /// stands; and it is not both player and monster.
    pub open spec fn fits(&self, grid: GameMap) -> bool {
        &&& self.position matches Some(p) ==> grid.in_bounds(p.x as int, p.y as int)
        &&& self.viewshed matches Some(v) ==> {
            &&& 0 <= v.range <= MAX_RANGE
            &&& forall|i: int|
                0 <= i < v.visible_tiles@.len() ==> grid.in_bounds(
                    (#[trigger] v.visible_tiles@[i]).x as int,
                    v.visible_tiles@[i].y as int,
                )
            &&& self.position is Some && !v.dirty ==> cells_of(v.visible_tiles@) == self.view(grid)
        }
        &&& !(self.player is Some && self.monster is Some)
    }

    /// An entity with no part at all.
    pub fn new() -> (c: Components)
        ensures
            c.position is None,
            c.renderable is None,
            c.player is None,
            c.viewshed is None,
            c.monster is None,
            c.name is None,
    {
        Components {
            position: None,
            renderable: None,
            player: None,
            viewshed: None,
            monster: None,
            name: None,
        }
    }

    /// Whether the entity can join a world with this grid: it stands on the
    /// grid if it stands anywhere, its range is within `0..=MAX_RANGE` if it
    /// sees, and it is not both player and monster.
    pub open spec fn admissible(&self, grid: GameMap) -> bool {
        &&& self.position matches Some(p) ==> grid.in_bounds(p.x as int, p.y as int)
        &&& self.viewshed matches Some(v) ==> 0 <= v.range <= MAX_RANGE
        &&& !(self.player is Some && self.monster is Some)
    }

    /// True exactly when the entity is admissible.
    pub fn is_admissible(&self, grid: &GameMap) -> (ok: bool)
        ensures
            ok == self.admissible(*grid),
    {
        let placed: bool = match self.position {
            Some(p) => grid.contains(p.x, p.y),
            None => true,
        };
        let ranged: bool = match &self.viewshed {
            Some(v) => 0 <= v.range && v.range <= MAX_RANGE,
            None => true,
        };
        placed && ranged && !(self.player.is_some() && self.monster.is_some())
    }
}

impl Viewshed {
    /// A view of the given range that has yet to be worked out.
    pub fn new(range: i32) -> (v: Viewshed)
        ensures
            v.range == range,
            v.dirty,
            v.visible_tiles@.len() == 0,
    {
        Viewshed { visible_tiles: Vec::new(), range, dirty: true }
    }
}

impl World {
    /// The grid is well formed and every entity, waiting or not, suits it.
    pub open spec fn wf(&self) -> bool {
        &&& self.map.wf()
        &&& forall|i: int|
            0 <= i < self.entities@.len() ==> (#[trigger] self.entities@[i]).fits(self.map)
        &&& forall|i: int|
            0 <= i < self.pending@.len() ==> (#[trigger] self.pending@[i]).fits(self.map)
    }

    /// A world with the given dungeon and no entity.
    pub fn new(map: GameMap) -> (world: World)
        requires
            map.wf(),
        ensures
            world.wf(),
            world.map == map,
            world.entities@.len() == 0,
            world.pending@.len() == 0,
    {
        World { entities: Vec::new(), pending: Vec::new(), map }
    }

    /// Adds an entity at once, handing back its index, or `None`, with nothing
    /// changed, where the entity is not admissible. The entity joins as
    /// `joins_as` says.
    pub fn create_entity(&mut self, components: Components) -> (index: Option<usize>)
        requires
            old(self).wf(),
        ensures
            final(self).wf(),
            final(self).map == old(self).map,
            final(self).pending@ == old(self).pending@,
            index is Some == components.admissible(old(self).map),
            index is None ==> final(self).entities@ == old(self).entities@,
            index matches Some(i) ==> {
                &&& i == old(self).entities@.len()
                &&& final(self).entities@.len() == i + 1
                &&& final(self).entities@.take(i as int) == old(self).entities@
                &&& joins_as(final(self).entities@[i as int], components)
            },
    {
        if !components.is_admissible(&self.map) {
            return None;
        }
        let index: usize = self.entities.len();
        let ghost before = self.entities@;
        let fresh = enter(components);
        self.entities.push(fresh);
        proof {
            assert(self.entities@.take(index as int) =~= before);
            assert forall|i: int| 0 <= i < self.entities@.len() implies (
            #[trigger] self.entities@[i]).fits(self.map) by {
                if i < index {
                    assert(self.entities@[i] == before[i]);
                }
            }
        }
        Some(index)
    }

    /// Asks for an entity to be added when the step is over. It waits in
    /// `pending` until `maintain` runs. Returns whether the entity was
    /// admissible; one that is not is dropped.
    pub fn defer_create(&mut self, components: Components) -> (queued: bool)
        requires
            old(self).wf(),
        ensures
            final(self).wf(),
            final(self).map == old(self).map,
            final(self).entities@ == old(self).entities@,
            queued == components.admissible(old(self).map),
            !queued ==> final(self).pending@ == old(self).pending@,
            queued ==> {
                &&& final(self).pending@.len() == old(self).pending@.len() + 1
                &&& final(self).pending@.take(old(self).pending@.len() as int) == old(
                    self,
                ).pending@
                &&& joins_as(final(self).pending@[old(self).pending@.len() as int], components)
            },
    {
        if !components.is_admissible(&self.map) {
            return false;
        }
        let ghost before = self.pending@;
        let fresh = enter(components);
        self.pending.push(fresh);
        proof {
            assert(self.pending@.take(before.len() as int) =~= before);
            assert forall|i: int| 0 <= i < self.pending@.len() implies (
            #[trigger] self.pending@[i]).fits(self.map) by {
                if i < before.len() {
                    assert(self.pending@[i] == before[i]);
                }
            }
        }
        true
    }

    /// Commits what was asked for during the step: the waiting entities join
    /// the others, in the order they were asked for.
    pub fn maintain(&mut self)
        requires
            old(self).wf(),
        ensures
            final(self).wf(),
            final(self).map == old(self).map,
            final(self).entities@ == old(self).entities@ + old(self).pending@,
            final(self).pending@.len() == 0,
    {
        let ghost first = self.entities@;
        let ghost second = self.pending@;
        self.entities.append(&mut self.pending);
        proof {
            assert forall|i: int| 0 <= i < self.entities@.len() implies (
            #[trigger] self.entities@[i]).fits(self.map) by {
                if i < first.len() {
                    assert(self.entities@[i] == first[i]);
                } else {
                    assert(self.entities@[i] == second[i - first.len()]);
                }
            }
        }
    }
}

/// `stored` is `given` as it joins a world: the same in every part, except that
/// a view is emptied and marked out of date, since it was never worked out for
/// this grid.
pub open spec fn joins_as(stored: Components, given: Components) -> bool {
    &&& stored.position == given.position
    &&& stored.renderable == given.renderable
    &&& stored.player == given.player
    &&& stored.monster == given.monster
    &&& stored.name == given.name
    &&& match given.viewshed {
        Some(v) => stored.viewshed matches Some(w) && w.range == v.range && w.dirty
            && w.visible_tiles@.len() == 0,
        None => stored.viewshed is None,
    }
}

/// Prepares an entity for joining a world.
fn enter(components: Components) -> (fresh: Components)
    ensures
        joins_as(fresh, components),
{
    let Components { position, renderable, player, viewshed, monster, name } = components;
    let viewshed: Option<Viewshed> = match viewshed {
        Some(v) => Some(Viewshed::new(v.range)),
        None => None,
    };
    Components { position, renderable, player, viewshed, monster, name }
}

} // verus!
