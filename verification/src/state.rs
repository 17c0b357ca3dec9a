use crate::components::cells_of;
use crate::components::RunState;
use crate::field_of_view::visible_from;
use crate::game_map::GameMap;
use crate::monster_ai_system::lists_reacting;
use crate::monster_ai_system::MonsterAI;
use crate::player::player_input;
use crate::player::players_stepped;
use crate::player::stepped;
use crate::player::Command;
use crate::visibility_system::brought_up_to_date;
use crate::visibility_system::refreshed;
use crate::visibility_system::VisibilitySystem;
use crate::world::Components;
use crate::world::World;
use vstd::prelude::*;

verus! {

/// The whole game: the world and the mode the simulation is in.
pub struct State {
    pub ecs: World,
    pub runstate: RunState,
}

/// What one step of the simulation makes of the world `before`, with
/// `reacting` the monsters that reacted.
///
/// The visibility system runs first, over the entities of `before`; the
/// monsters react to what it left; and last the entities in waiting join the
/// others, so that no entity is added while a system runs.
pub open spec fn systems_ran(before: World, after: World, reacting: Seq<usize>) -> bool {
    let n = before.entities@.len() as int;
    &&& after.entities@.len() == n + before.pending@.len()
    &&& brought_up_to_date(before, after.entities@.take(n), after.map)
    &&& after.entities@.skip(n) == before.pending@
    &&& after.pending@.len() == 0
    &&& lists_reacting(reacting, after.entities@.take(n))
}

impl State {
    /// A game on the given world that waits for the player.
    pub fn new(ecs: World) -> (gs: State)
        ensures
            gs.ecs == ecs,
            gs.runstate == RunState::AwaitingInput,
    {
        State { ecs, runstate: RunState::AwaitingInput }
    }

    /// Advances the simulation by one step: visibility, then the monsters,
    /// then the commit of what was asked for meanwhile. Hands back the
    /// monsters that reacted.
    pub fn run_systems(&mut self) -> (reacting: Vec<usize>)
        requires
            old(self).ecs.wf(),
        ensures
            final(self).ecs.wf(),
            final(self).runstate == old(self).runstate,
            systems_ran(old(self).ecs, final(self).ecs, reacting@),
    {
        let mut vis = VisibilitySystem {  };
        vis.run(&mut self.ecs);
        let ghost seen = self.ecs.entities@;
        let mut mob = MonsterAI {  };
        let reacting: Vec<usize> = mob.run(&self.ecs);
        self.ecs.maintain();
        proof {
            let n = old(self).ecs.entities@.len() as int;
            assert(self.ecs.entities@.take(n) =~= seen);
            assert(self.ecs.entities@.skip(n) =~= old(self).ecs.pending@);
        }
        reacting
    }

    /// One frame of the game.
    ///
    /// While the simulation is due to run, the input is left aside: the
    /// systems run once and the game waits for the player again. While the
    /// game waits, a frame without input changes nothing, and a frame with a
    /// command carries it out at once and makes the simulation due to run.
    /// Hands back the monsters that reacted in this frame.
    pub fn tick(&mut self, input: Option<Command>) -> (reacting: Vec<usize>)
        requires
            old(self).ecs.wf(),
        ensures
            final(self).ecs.wf(),
            old(self).ecs.map.revealed_kept_by(final(self).ecs.map),
            match (old(self).runstate, input) {
                (RunState::Running, _) => {
                    &&& final(self).runstate == RunState::AwaitingInput
                    &&& systems_ran(old(self).ecs, final(self).ecs, reacting@)
                },
                (RunState::AwaitingInput, None) => {
                    &&& *final(self) == *old(self)
                    &&& reacting@.len() == 0
                },
                (RunState::AwaitingInput, Some(Command::Move { dx, dy })) => {
                    &&& final(self).runstate == RunState::Running
                    &&& players_stepped(old(self).ecs, final(self).ecs, dx as int, dy as int)
                    &&& reacting@.len() == 0
                },
            },
    {
        match self.runstate {
            RunState::Running => {
                let reacting: Vec<usize> = self.run_systems();
                self.runstate = RunState::AwaitingInput;
                reacting
            },
            RunState::AwaitingInput => {
                let next: RunState = player_input(self, input);
                self.runstate = next;
                Vec::new()
            },
        }
    }
}

/// A step that was taken marks the view out of date, and the next run of the
/// visibility system brings it up to date for the new place.
///
/// `moved` is the world after the entity `i` tried a step of `(dx, dy)` in
/// `before`, and `entities` and `grid` are what the visibility system made of
/// `moved`. If the entity has a view and the step was taken, then in `moved` the
/// entity stands on the cell it stepped to and its view is marked out of date;
/// and after the run the view is up to date and holds exactly the cells in view
/// from that cell.
pub proof fn lemma_move_marks_view_until_refreshed(
    before: World,
    moved: World,
    entities: Seq<Components>,
    grid: GameMap,
    i: int,
    dx: int,
    dy: int,
)
    requires
        before.wf(),
        0 <= i < before.entities@.len(),
        moved.entities@.len() == before.entities@.len(),
        moved.map == before.map,
        stepped(moved.entities@[i], before.entities@[i], before.map, dx, dy),
        before.entities@[i].viewshed is Some,
        before.entities@[i].position matches Some(p) && before.map.is_floor(p.x + dx, p.y + dy),
        brought_up_to_date(moved, entities, grid),
    ensures
        moved.entities@[i].position->0.x == before.entities@[i].position->0.x + dx,
        moved.entities@[i].position->0.y == before.entities@[i].position->0.y + dy,
        moved.entities@[i].viewshed->0.dirty,
        entities[i].viewshed is Some,
        !entities[i].viewshed->0.dirty,
        entities[i].position == moved.entities@[i].position,
        cells_of(entities[i].viewshed->0.visible_tiles@) == visible_from(
            before.entities@[i].position->0.x + dx,
            before.entities@[i].position->0.y + dy,
            before.entities@[i].viewshed->0.range as int,
            before.map.width as int,
            before.map.height as int,
            before.map.opaque(),
        ),
{
    assert(refreshed(entities[i], moved.entities@[i], moved.map));
    assert(moved.entities@[i].stale());
}

} // verus!
