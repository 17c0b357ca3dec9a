use crate::world::Components;
use crate::world::World;
use vstd::prelude::*;

verus! {

/// Lets the monsters react to what they see. For now a monster only takes note
/// that it exists.
pub struct MonsterAI {}

/// Whether an entity takes part in the monster system: it is a monster with a
/// place and a view.
pub open spec fn reacts(c: Components) -> bool {
    c.monster is Some && c.sees()
}

/// `found` lists, in rising order, exactly the indices of the entities that
/// react.
pub open spec fn lists_reacting(found: Seq<usize>, entities: Seq<Components>) -> bool {
    &&& forall|k: int| 0 <= k < found.len() ==> (#[trigger] found[k]) < entities.len() && reacts(entities[found[k] as int])
    &&& forall|k: int, l: int| 0 <= k < l < found.len() ==> (#[trigger] found[k]) < (#[trigger] found[l])
    &&& forall|i: int|
        0 <= i < entities.len() && reacts(#[trigger] entities[i]) ==> exists|k: int|
            0 <= k < found.len() && #[trigger] found[k] == i
}

impl MonsterAI {
    /// Runs the system once. It changes nothing; it hands back the monsters
    /// that reacted, by index, for whoever wants to report them.
    pub fn run(&mut self, world: &World) -> (reacting: Vec<usize>)
        ensures
            lists_reacting(reacting@, world.entities@),
    {
        let mut reacting: Vec<usize> = Vec::new();
        let n: usize = world.entities.len();
        let mut i: usize = 0;
        while i < n
            invariant
                i <= n,
                n == world.entities@.len(),
                forall|k: int| 0 <= k < reacting@.len() ==> (#[trigger] reacting@[k]) < i && reacts(world.entities@[reacting@[k] as int]),
                forall|k: int, l: int| 0 <= k < l < reacting@.len() ==> (#[trigger] reacting@[k]) < (#[trigger] reacting@[l]),
                forall|j: int|
                    0 <= j < i && reacts(#[trigger] world.entities@[j]) ==> exists|k: int|
                        0 <= k < reacting@.len() && #[trigger] reacting@[k] == j,
            decreases n - i,
        {
            let c = &world.entities[i];
            if c.monster.is_some() && c.position.is_some() && c.viewshed.is_some() {
                let ghost earlier = reacting@;
                reacting.push(i);
                proof {
                    assert(reacting@[earlier.len() as int] == i);
                    assert forall|j: int| 0 <= j < i + 1 && reacts(#[trigger] world.entities@[j]) implies exists|k: int|
                        0 <= k < reacting@.len() && #[trigger] reacting@[k] == j by {
                        if j < i {
                            let k = choose|k: int| 0 <= k < earlier.len() && #[trigger] earlier[k] == j;
                            assert(reacting@[k] == j);
                        }
                    }
                }
            }
            i = i + 1;
        }
        reacting
    }
}

} // verus!
