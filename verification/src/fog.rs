use crate::components::cells_of;
use crate::components::Coord;
use crate::game_map::lemma_index_in_range;
use crate::game_map::lemma_index_injective;
use crate::game_map::cell_index;
use crate::game_map::GameMap;
use vstd::prelude::*;

verus! {

impl GameMap {
    /// Whether the player sees the cell `(x, y)` now.
    pub open spec fn visible_at(&self, x: int, y: int) -> bool {
        self.visible_tiles@[cell_index(self.width as int, x, y)]
    }

    /// Whether the player has ever seen the cell `(x, y)`.
    pub open spec fn revealed_at(&self, x: int, y: int) -> bool {
        self.revealed_tiles@[cell_index(self.width as int, x, y)]
    }

    /// Everything but the two visibility layers is as in `before`, and the
    /// layers have kept their length.
    pub open spec fn same_but_layers(&self, before: GameMap) -> bool {
        &&& self.width == before.width
        &&& self.height == before.height
        &&& self.rooms@ == before.rooms@
        &&& self.tiles@ == before.tiles@
        &&& self.revealed_tiles@.len() == before.revealed_tiles@.len()
        &&& self.visible_tiles@.len() == before.visible_tiles@.len()
    }

    /// No cell that was revealed in `self` is hidden in `later`.
    pub open spec fn revealed_kept_by(&self, later: GameMap) -> bool {
        &&& self.revealed_tiles@.len() == later.revealed_tiles@.len()
        &&& forall|i: int|
            0 <= i < self.revealed_tiles@.len() && self.revealed_tiles@[i]
                ==> #[trigger] later.revealed_tiles@[i]
    }

    /// Marks every cell as not in view.
    pub fn clear_visible(&mut self)
        requires
            old(self).wf(),
        ensures
            final(self).wf(),
            final(self).same_but_layers(*old(self)),
            final(self).revealed_tiles@ == old(self).revealed_tiles@,
            forall|i: int| 0 <= i < final(self).visible_tiles@.len() ==> !final(self).visible_tiles@[i],
    {
        let n: usize = self.visible_tiles.len();
        let mut i: usize = 0;
        while i < n
            invariant
                i <= n,
                n == self.visible_tiles@.len(),
                self.same_but_layers(*old(self)),
                self.revealed_tiles@ == old(self).revealed_tiles@,
                old(self).wf(),
                forall|k: int| 0 <= k < i ==> !self.visible_tiles@[k],
                forall|k: int|
                    i <= k < n ==> self.visible_tiles@[k] == old(self).visible_tiles@[k],
            decreases n - i,
        {
            self.visible_tiles[i] = false;
            i = i + 1;
        }
    }

    /// Makes `cells` the player's view: the cells of the grid among them are in
    /// view and revealed, every other cell is out of view, and what was revealed
    /// before stays revealed. Cells outside the grid are passed over.
    pub fn show(&mut self, cells: &Vec<Coord>)
        requires
            old(self).wf(),
        ensures
            final(self).wf(),
            final(self).same_but_layers(*old(self)),
            old(self).revealed_kept_by(*final(self)),
            forall|x: int, y: int|
                #![trigger final(self).visible_at(x, y)]
                final(self).in_bounds(x, y) ==> final(self).visible_at(x, y) == cells_of(
                    cells@,
                ).contains((x, y)),
            forall|x: int, y: int|
                #![trigger final(self).revealed_at(x, y)]
                final(self).in_bounds(x, y) ==> final(self).revealed_at(x, y) == (old(
                    self,
                ).revealed_at(x, y) || cells_of(cells@).contains((x, y))),
    {
        self.clear_visible();
        let mut k: usize = 0;
        proof {
            assert forall|x: int, y: int|
                #![trigger self.visible_at(x, y)]
                self.in_bounds(x, y) implies !self.visible_at(x, y) by {
                lemma_index_in_range(self.width as int, self.height as int, x, y);
            }
            assert(cells@.take(0).len() == 0);
        }
        while k < cells.len()
            invariant
                k <= cells@.len(),
                self.wf(),
                self.same_but_layers(*old(self)),
                old(self).wf(),
                old(self).revealed_kept_by(*self),
                forall|x: int, y: int|
                    #![trigger self.visible_at(x, y)]
                    self.in_bounds(x, y) ==> self.visible_at(x, y) == cells_of(
                        cells@.take(k as int),
                    ).contains((x, y)),
                forall|x: int, y: int|
                    #![trigger self.revealed_at(x, y)]
                    self.in_bounds(x, y) ==> self.revealed_at(x, y) == (old(self).revealed_at(x, y)
                        || cells_of(cells@.take(k as int)).contains((x, y))),
            decreases cells@.len() - k,
        {
            let c: Coord = cells[k];
            let ghost prev = *self;
            let ghost seen = cells@.take(k as int);
            let ghost seen_next = cells@.take(k as int + 1);
            proof {
                assert(seen_next =~= seen.push(c));
                lemma_cells_of_push(seen, c);
            }
            if self.contains(c.x, c.y) {
                let idx: usize = self.xy_idx(c.x, c.y);
                self.revealed_tiles[idx] = true;
                self.visible_tiles[idx] = true;
                proof {
                    assert forall|i: int|
                        0 <= i < self.visible_tiles@.len()
                            && #[trigger] self.visible_tiles@[i] implies self.revealed_tiles@[i] by {
                        if i != idx {
                            assert(prev.visible_tiles@[i]);
                        }
                    }
                    assert forall|x: int, y: int|
                        #![trigger self.visible_at(x, y)]
                        self.in_bounds(x, y) implies self.visible_at(x, y) == cells_of(
                        seen_next,
                    ).contains((x, y)) by {
                        lemma_index_in_range(self.width as int, self.height as int, x, y);
                        if cell_index(self.width as int, x, y) == idx {
                            lemma_index_injective(self.width as int, x, y, c.x as int, c.y as int);
                        } else {
                            assert(self.visible_at(x, y) == prev.visible_at(x, y));
                        }
                    }
                    assert forall|x: int, y: int|
                        #![trigger self.revealed_at(x, y)]
                        self.in_bounds(x, y) implies self.revealed_at(x, y) == (old(
                        self,
                    ).revealed_at(x, y) || cells_of(seen_next).contains((x, y))) by {
                        lemma_index_in_range(self.width as int, self.height as int, x, y);
                        if cell_index(self.width as int, x, y) == idx {
                            lemma_index_injective(self.width as int, x, y, c.x as int, c.y as int);
                        } else {
                            assert(self.revealed_at(x, y) == prev.revealed_at(x, y));
                        }
                    }
                }
            }
            k = k + 1;
        }
        proof {
            assert(cells@.take(cells@.len() as int) =~= cells@);
        }
    }
}

/// On a well-formed grid a cell that the player sees now has been revealed.
pub proof fn lemma_visible_is_revealed(m: GameMap, x: int, y: int)
    requires
        m.wf(),
        m.in_bounds(x, y),
        m.visible_at(x, y),
    ensures
        m.revealed_at(x, y),
{
    lemma_index_in_range(m.width as int, m.height as int, x, y);
}

/// What is revealed only grows from step to step: if nothing revealed in `a` is
/// hidden in `b`, and nothing revealed in `b` is hidden in `c`, then nothing
/// revealed in `a` is hidden in `c`.
pub proof fn lemma_revealed_kept_chain(a: GameMap, b: GameMap, c: GameMap)
    requires
        a.revealed_kept_by(b),
        b.revealed_kept_by(c),
    ensures
        a.revealed_kept_by(c),
{
    assert forall|i: int|
        0 <= i < a.revealed_tiles@.len() && a.revealed_tiles@[i] implies #[trigger] c.revealed_tiles@[i] by {
        assert(b.revealed_tiles@[i]);
    }
}

/// The cells of a sequence with one more point are the cells of the sequence
/// and the cell of that point.
pub proof fn lemma_cells_of_push(s: Seq<Coord>, c: Coord)
    ensures
        cells_of(s.push(c)) == cells_of(s).insert((c.x as int, c.y as int)),
{
    let t = s.push(c);
    assert forall|p: (int, int)| cells_of(t).contains(p) == cells_of(s).insert(
        (c.x as int, c.y as int),
    ).contains(p) by {
        if cells_of(t).contains(p) {
            let i = choose|i: int| 0 <= i < t.len() && (#[trigger] t[i]).x == p.0 && t[i].y == p.1;
            if i < s.len() {
                assert(s[i] == t[i]);
            }
        }
        if cells_of(s).contains(p) {
            let i = choose|i: int| 0 <= i < s.len() && (#[trigger] s[i]).x == p.0 && s[i].y == p.1;
            assert(t[i] == s[i]);
        }
        if p == (c.x as int, c.y as int) {
            assert(t[s.len() as int] == c);
        }
    }
    assert(cells_of(t) =~= cells_of(s).insert((c.x as int, c.y as int)));
}

/// A sequence in which every element passes the test is its own filter.
pub proof fn lemma_filter_keeps_all<A>(s: Seq<A>, pred: spec_fn(A) -> bool)
    requires
        forall|i: int| 0 <= i < s.len() ==> pred(#[trigger] s[i]),
    ensures
        s.filter(pred) == s,
    decreases s.len(),
{
    reveal(Seq::filter);
    if s.len() > 0 {
        let front = s.drop_last();
        assert forall|i: int| 0 <= i < front.len() implies pred(#[trigger] front[i]) by {
            assert(front[i] == s[i]);
        }
        lemma_filter_keeps_all(front, pred);
        assert(front.push(s.last()) =~= s);
    }
}

/// Keeps the points that name a cell of the grid, in the order they came.
pub fn clip_to_grid(cells: Vec<Coord>, grid: &GameMap) -> (kept: Vec<Coord>)
    ensures
        kept@ == cells@.filter(|c: Coord| grid.in_bounds(c.x as int, c.y as int)),
{
    let ghost inside = |c: Coord| grid.in_bounds(c.x as int, c.y as int);
    let mut kept: Vec<Coord> = Vec::new();
    let mut k: usize = 0;
    proof {
        assert(cells@.take(0) =~= Seq::<Coord>::empty());
        assert(Seq::<Coord>::empty().filter(inside) =~= Seq::<Coord>::empty()) by {
            reveal(Seq::filter);
        }
    }
    while k < cells.len()
        invariant
            k <= cells@.len(),
            inside == |c: Coord| grid.in_bounds(c.x as int, c.y as int),
            kept@ == cells@.take(k as int).filter(inside),
        decreases cells@.len() - k,
    {
        let c: Coord = cells[k];
        proof {
            assert(cells@.take(k as int + 1) =~= cells@.take(k as int).push(c));
            cells@.take(k as int).lemma_filter_push(c, inside);
        }
        if grid.contains(c.x, c.y) {
            kept.push(c);
        }
        k = k + 1;
    }
    proof {
        assert(cells@.take(cells@.len() as int) =~= cells@);
    }
    kept
}

} // verus!
