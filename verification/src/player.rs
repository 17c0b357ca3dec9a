use crate::components::Position;
use crate::components::RunState;
use crate::components::Viewshed;
use crate::game_map::GameMap;
use crate::game_map::TileType;
use crate::state::State;
use crate::world::Components;
use crate::world::World;
use vstd::prelude::*;

verus! {

/// What the player can ask for in one turn.
#[derive(Clone, Copy, Debug, PartialEq, Eq, Structural)]
pub enum Command {
    /// A step of `dx` columns and `dy` rows.
    Move { dx: i32, dy: i32 },
}

/// `v` brought into `0..=hi`.
pub open spec fn clamped(v: int, hi: int) -> int {
    if v < 0 {
        0
    } else if v > hi {
        hi
    } else {
        v
    }
}

impl GameMap {
    /// Where an entity at `p` stands after trying a step of `(dx, dy)`: on the
    /// cell it stepped to, brought into the grid, if that cell is a cell of the
    /// grid and not wall; where it stood, otherwise.
    pub open spec fn after_step(&self, p: Position, dx: int, dy: int) -> Position {
        if self.is_floor(p.x + dx, p.y + dy) {
            Position {
                x: clamped(p.x + dx, self.width - 1) as i32,
                y: clamped(p.y + dy, self.height - 1) as i32,
            }
        } else {
            p
        }
    }

    /// Tries a step of `(dx, dy)` from `p`. Hands back where the entity stands
    /// afterwards and whether the step was taken.
    pub fn step(&self, p: Position, dx: i32, dy: i32) -> (r: (Position, bool))
        requires
            self.wf(),
        ensures
            r.0 == self.after_step(p, dx as int, dy as int),
            r.1 == self.is_floor(p.x + dx, p.y + dy),
            self.in_bounds(p.x as int, p.y as int) ==> self.in_bounds(r.0.x as int, r.0.y as int),
            r.1 ==> r.0.x == p.x + dx && r.0.y == p.y + dy,
    {
        let x: i64 = p.x as i64 + dx as i64;
        let y: i64 = p.y as i64 + dy as i64;
        if 0 <= x && x < self.width as i64 && 0 <= y && y < self.height as i64 {
            let idx: usize = self.xy_idx(x as i32, y as i32);
            match self.tiles[idx] {
                TileType::Wall => (p, false),
                TileType::Floor => {
                    let cx: i64 = if x < 0 { 0 } else if x > self.width as i64 - 1 { self.width as i64 - 1 } else { x };
                    let cy: i64 = if y < 0 { 0 } else if y > self.height as i64 - 1 { self.height as i64 - 1 } else { y };
                    (Position { x: cx as i32, y: cy as i32 }, true)
                },
            }
        } else {
            (p, false)
        }
    }
}

/// A step against a wall, or off the grid, leaves the entity where it stood; a
/// step onto floor takes it exactly there.
pub proof fn lemma_step_collision(m: GameMap, p: Position, dx: int, dy: int)
    requires
        m.wf(),
    ensures
        !m.is_floor(p.x + dx, p.y + dy) ==> m.after_step(p, dx, dy) == p,
        m.is_floor(p.x + dx, p.y + dy) ==> m.after_step(p, dx, dy).x == p.x + dx && m.after_step(
            p,
            dx,
            dy,
        ).y == p.y + dy,
        m.in_bounds(p.x as int, p.y as int) ==> m.in_bounds(
            m.after_step(p, dx, dy).x as int,
            m.after_step(p, dx, dy).y as int,
        ),
{
}

/// What a try at a step of `(dx, dy)` makes of an entity. One without a place
/// is left alone. One with a place stands afterwards where `after_step` says;
/// if the step was taken, its view, if it has one, is marked out of date, with
/// nothing else changed; if not, nothing changes at all.
pub open spec fn stepped(after: Components, before: Components, grid: GameMap, dx: int, dy: int) -> bool {
    &&& after.renderable == before.renderable
    &&& after.player == before.player
    &&& after.monster == before.monster
    &&& after.name == before.name
    &&& match before.position {
        None => after.position is None && after.viewshed == before.viewshed,
        Some(p) => {
            &&& after.position == Some(grid.after_step(p, dx, dy))
            &&& if grid.is_floor(p.x + dx, p.y + dy) {
                match before.viewshed {
                    None => after.viewshed is None,
                    Some(v) => {
                        &&& after.viewshed matches Some(w)
                        &&& w.dirty
                        &&& w.range == v.range
                        &&& w.visible_tiles@ == v.visible_tiles@
                    },
                }
            } else {
                after.viewshed == before.viewshed
            }
        },
    }
}

impl World {
    /// Lets the entity `entity` try a step of `(dx, dy)`, and says whether the
    /// step was taken. The entity changes as `stepped` says; nothing else does.
    pub fn try_move(&mut self, entity: usize, dx: i32, dy: i32) -> (taken: bool)
        requires
            old(self).wf(),
            entity < old(self).entities@.len(),
        ensures
            final(self).wf(),
            final(self).map == old(self).map,
            final(self).pending@ == old(self).pending@,
            final(self).entities@.len() == old(self).entities@.len(),
            forall|j: int|
                0 <= j < final(self).entities@.len() && j != entity ==> #[trigger] final(self).entities@[j] == old(self).entities@[j],
            stepped(
                final(self).entities@[entity as int],
                old(self).entities@[entity as int],
                old(self).map,
                dx as int,
                dy as int,
            ),
            taken == (old(self).entities@[entity as int].position matches Some(p) && old(self).map.is_floor(p.x + dx, p.y + dy)),
    {
        let ghost before = self.entities@;
        assert(before[entity as int].fits(self.map));
        let place: Option<Position> = self.entities[entity].position;
        match place {
            None => false,
            Some(p) => {
                let (q, taken) = self.map.step(p, dx, dy);
                if taken {
                    self.entities[entity].position = Some(q);
                    let view: Option<Viewshed> = self.entities[entity].viewshed.take();
                    match view {
                        None => {},
                        Some(mut v) => {
                            v.dirty = true;
                            self.entities[entity].viewshed = Some(v);
                        },
                    }
                    proof {
                        assert forall|j: int| 0 <= j < self.entities@.len() implies (
                        #[trigger] self.entities@[j]).fits(self.map) by {
                            if j != entity {
                                assert(self.entities@[j] == before[j]);
                            }
                        }
                    }
                }
                taken
            },
        }
    }
}

/// What a try at a step of `(dx, dy)` by every entity marked as player makes of
/// a world: each of them changes as `stepped` says; no other entity changes,
/// nor do the grid and the entities in waiting.
pub open spec fn players_stepped(before: World, after: World, dx: int, dy: int) -> bool {
    &&& after.map == before.map
    &&& after.pending@ == before.pending@
    &&& after.entities@.len() == before.entities@.len()
    &&& forall|j: int|
        0 <= j < after.entities@.len() ==> if before.entities@[j].player is Some {
            stepped(#[trigger] after.entities@[j], before.entities@[j], before.map, dx, dy)
        } else {
            after.entities@[j] == before.entities@[j]
        }
}

/// Lets every entity that is marked as player try a step of `(delta_x,
/// delta_y)`, as `players_stepped` says.
pub fn try_move_player(delta_x: i32, delta_y: i32, ecs: &mut World)
    requires
        old(ecs).wf(),
    ensures
        final(ecs).wf(),
        players_stepped(*old(ecs), *final(ecs), delta_x as int, delta_y as int),
{
    let n: usize = ecs.entities.len();
    let mut i: usize = 0;
    while i < n
        invariant
            i <= n,
            n == old(ecs).entities@.len(),
            ecs.wf(),
            ecs.map == old(ecs).map,
            ecs.pending@ == old(ecs).pending@,
            ecs.entities@.len() == n,
            forall|j: int| i <= j < n ==> #[trigger] ecs.entities@[j] == old(ecs).entities@[j],
            forall|j: int|
                0 <= j < i ==> if old(ecs).entities@[j].player is Some {
                    stepped(
                        #[trigger] ecs.entities@[j],
                        old(ecs).entities@[j],
                        old(ecs).map,
                        delta_x as int,
                        delta_y as int,
                    )
                } else {
                    ecs.entities@[j] == old(ecs).entities@[j]
                },
        decreases n - i,
    {
        if ecs.entities[i].player.is_some() {
            let _taken: bool = ecs.try_move(i, delta_x, delta_y);
        }
        i = i + 1;
    }
}

/// Takes what the player asked for this frame, if anything. Without input
/// nothing changes and the simulation keeps waiting. A move is tried at once
/// by every player, whether or not a wall is in the way, and the simulation is
/// then due to run.
pub fn player_input(gs: &mut State, input: Option<Command>) -> (next: RunState)
    requires
        old(gs).ecs.wf(),
    ensures
        final(gs).ecs.wf(),
        final(gs).runstate == old(gs).runstate,
        match input {
            None => next == RunState::AwaitingInput && final(gs).ecs == old(gs).ecs,
            Some(Command::Move { dx, dy }) => next == RunState::Running && players_stepped(
                old(gs).ecs,
                final(gs).ecs,
                dx as int,
                dy as int,
            ),
        },
{
    match input {
        None => RunState::AwaitingInput,
        Some(Command::Move { dx, dy }) => {
            try_move_player(dx, dy, &mut gs.ecs);
            RunState::Running
        },
    }
}

} // verus!
