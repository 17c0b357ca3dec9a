use crate::game_map::GameMap;
use crate::rect::Rect;
use vstd::prelude::*;

verus! {

/// Two cells are neighbours when one step along a row or a column leads from one
/// to the other.
pub open spec fn adjacent(a: (int, int), b: (int, int)) -> bool {
    ||| (a.0 == b.0 && (a.1 == b.1 + 1 || a.1 + 1 == b.1))
    ||| (a.1 == b.1 && (a.0 == b.0 + 1 || a.0 + 1 == b.0))
}

impl GameMap {
    /// A walk is a non-empty sequence of floor cells in which each cell is a
    /// neighbour of the one before it.
    pub open spec fn is_walk(&self, p: Seq<(int, int)>) -> bool {
        &&& p.len() > 0
        &&& forall|i: int| 0 <= i < p.len() ==> self.is_floor((#[trigger] p[i]).0, p[i].1)
        &&& forall|i: int| #![trigger p[i]] 0 <= i < p.len() - 1 ==> adjacent(p[i], p[i + 1])
    }

    /// `b` can be reached from `a` by stepping over floor only.
    pub open spec fn connected(&self, a: (int, int), b: (int, int)) -> bool {
        exists|p: Seq<(int, int)>| #[trigger] self.is_walk(p) && p[0] == a && p[p.len() - 1] == b
    }

    /// Every cell of the room carved from `r` is floor.
    pub open spec fn room_is_floor(&self, r: Rect) -> bool {
        forall|x: int, y: int| r.contains_cell(x, y) ==> #[trigger] self.is_floor(x, y)
    }

    /// Every floor cell of `self` is a floor cell of `later`.
    pub open spec fn floor_kept_by(&self, later: GameMap) -> bool {
        forall|x: int, y: int| self.is_floor(x, y) ==> #[trigger] later.is_floor(x, y)
    }
}

/// A floor cell is connected to itself.
pub proof fn lemma_connected_refl(m: GameMap, a: (int, int))
    requires
        m.is_floor(a.0, a.1),
    ensures
        m.connected(a, a),
{
    let p = seq![a];
    assert(m.is_walk(p));
}

/// A walk can be extended by one step onto a neighbouring floor cell.
pub proof fn lemma_connected_step(m: GameMap, a: (int, int), b: (int, int), c: (int, int))
    requires
        m.connected(a, b),
        adjacent(b, c),
        m.is_floor(c.0, c.1),
    ensures
        m.connected(a, c),
{
    let p = choose|p: Seq<(int, int)>| #[trigger] m.is_walk(p) && p[0] == a && p[p.len() - 1] == b;
    let q = p.push(c);
    assert forall|i: int| 0 <= i < q.len() implies m.is_floor((#[trigger] q[i]).0, q[i].1) by {
        if i < p.len() {
            assert(q[i] == p[i]);
        }
    }
    assert forall|i: int| #![trigger q[i]] 0 <= i < q.len() - 1 implies adjacent(q[i], q[i + 1]) by {
        if i < p.len() - 1 {
            assert(q[i] == p[i]);
            assert(q[i + 1] == p[i + 1]);
        }
    }
    assert(m.is_walk(q));
}

/// Walking back along a walk is a walk: connection goes both ways.
pub proof fn lemma_connected_sym(m: GameMap, a: (int, int), b: (int, int))
    requires
        m.connected(a, b),
    ensures
        m.connected(b, a),
{
    let p = choose|p: Seq<(int, int)>| #[trigger] m.is_walk(p) && p[0] == a && p[p.len() - 1] == b;
    let n = p.len() as int;
    let q = Seq::new(p.len(), |i: int| p[n - 1 - i]);
    assert forall|i: int| 0 <= i < q.len() implies m.is_floor((#[trigger] q[i]).0, q[i].1) by {
        assert(q[i] == p[n - 1 - i]);
    }
    assert forall|i: int| #![trigger q[i]] 0 <= i < q.len() - 1 implies adjacent(q[i], q[i + 1]) by {
        let j = n - 2 - i;
        assert(q[i] == p[j + 1]);
        assert(q[i + 1] == p[j]);
        assert(adjacent(p[j], p[j + 1]));
    }
    assert(m.is_walk(q));
}

/// Two walks that meet make one walk.
pub proof fn lemma_connected_trans(m: GameMap, a: (int, int), b: (int, int), c: (int, int))
    requires
        m.connected(a, b),
        m.connected(b, c),
    ensures
        m.connected(a, c),
{
    let p = choose|p: Seq<(int, int)>| #[trigger] m.is_walk(p) && p[0] == a && p[p.len() - 1] == b;
    let r = choose|r: Seq<(int, int)>| #[trigger] m.is_walk(r) && r[0] == b && r[r.len() - 1] == c;
    let q = p + r.subrange(1, r.len() as int);
    assert forall|i: int| 0 <= i < q.len() implies m.is_floor((#[trigger] q[i]).0, q[i].1) by {
        if i < p.len() {
            assert(q[i] == p[i]);
        } else {
            assert(q[i] == r[i - p.len() + 1]);
        }
    }
    assert forall|i: int| #![trigger q[i]] 0 <= i < q.len() - 1 implies adjacent(q[i], q[i + 1]) by {
        if i < p.len() - 1 {
            assert(q[i] == p[i]);
            assert(q[i + 1] == p[i + 1]);
        } else if i == p.len() - 1 {
            assert(q[i] == r[0]);
            assert(q[i + 1] == r[1]);
        } else {
            let j = i - p.len() + 1;
            assert(q[i] == r[j]);
            assert(q[i + 1] == r[j + 1]);
        }
    }
    assert(m.is_walk(q));
    if r.len() == 1 {
        assert(q[q.len() - 1] == p[p.len() - 1]);
    } else {
        assert(q[q.len() - 1] == r[r.len() - 1]);
    }
}

/// Laying more floor breaks no connection.
pub proof fn lemma_connected_kept(m: GameMap, later: GameMap, a: (int, int), b: (int, int))
    requires
        m.floor_kept_by(later),
        m.connected(a, b),
    ensures
        later.connected(a, b),
{
    let p = choose|p: Seq<(int, int)>| #[trigger] m.is_walk(p) && p[0] == a && p[p.len() - 1] == b;
    assert forall|i: int| 0 <= i < p.len() implies later.is_floor((#[trigger] p[i]).0, p[i].1) by {
        assert(m.is_floor(p[i].0, p[i].1));
    }
    assert(later.is_walk(p));
}

/// The two ends of a stretch of floor along a row are connected.
pub proof fn lemma_row_connected(m: GameMap, y: int, xa: int, xb: int)
    requires
        forall|x: int| (xa <= x <= xb || xb <= x <= xa) ==> #[trigger] m.is_floor(x, y),
    ensures
        m.connected((xa, y), (xb, y)),
    decreases
            if xa <= xb {
                xb - xa
            } else {
                xa - xb
            },
{
    if xa == xb {
        lemma_connected_refl(m, (xa, y));
    } else if xa < xb {
        lemma_row_connected(m, y, xa, xb - 1);
        lemma_connected_step(m, (xa, y), (xb - 1, y), (xb, y));
    } else {
        lemma_row_connected(m, y, xa, xb + 1);
        lemma_connected_step(m, (xa, y), (xb + 1, y), (xb, y));
    }
}

/// The two ends of a stretch of floor along a column are connected.
pub proof fn lemma_column_connected(m: GameMap, x: int, ya: int, yb: int)
    requires
        forall|y: int| (ya <= y <= yb || yb <= y <= ya) ==> #[trigger] m.is_floor(x, y),
    ensures
        m.connected((x, ya), (x, yb)),
    decreases
            if ya <= yb {
                yb - ya
            } else {
                ya - yb
            },
{
    if ya == yb {
        lemma_connected_refl(m, (x, ya));
    } else if ya < yb {
        lemma_column_connected(m, x, ya, yb - 1);
        lemma_connected_step(m, (x, ya), (x, yb - 1), (x, yb));
    } else {
        lemma_column_connected(m, x, ya, yb + 1);
        lemma_connected_step(m, (x, ya), (x, yb + 1), (x, yb));
    }
}

/// Any two cells of a room that is all floor are connected.
pub proof fn lemma_room_connected(m: GameMap, r: Rect, a: (int, int), b: (int, int))
    requires
        m.room_is_floor(r),
        r.contains_cell(a.0, a.1),
        r.contains_cell(b.0, b.1),
    ensures
        m.connected(a, b),
{
    assert forall|x: int| (a.0 <= x <= b.0 || b.0 <= x <= a.0) implies #[trigger] m.is_floor(
        x,
        a.1,
    ) by {
        assert(r.contains_cell(x, a.1));
    }
    lemma_row_connected(m, a.1, a.0, b.0);
    assert forall|y: int| (a.1 <= y <= b.1 || b.1 <= y <= a.1) implies #[trigger] m.is_floor(
        b.0,
        y,
    ) by {
        assert(r.contains_cell(b.0, y));
    }
    lemma_column_connected(m, b.0, a.1, b.1);
    lemma_connected_trans(m, a, (b.0, a.1), b);
}

} // verus!
