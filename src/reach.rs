use crate::carve::{corridor, max_of, min_of};
use crate::map::{floor_tile, height_of, in_grid, is_floor, is_grid, lemma_paint_shape, paint, width_of, Grid};
use vstd::prelude::*;

verus! {

/// Two cells that share a side.
pub open spec fn adjacent(a: (int, int), b: (int, int)) -> bool {
    (a.0 == b.0 && (a.1 == b.1 + 1 || b.1 == a.1 + 1)) || (a.1 == b.1 && (a.0 == b.0 + 1 || b.0 == a.0 + 1))
}

/// A walk over floor cells, each step to a cell that shares a side.
pub open spec fn floor_path(g: Grid, p: Seq<(int, int)>) -> bool {
    &&& p.len() >= 1
    &&& forall|i: int| 0 <= i < p.len() ==> is_floor(g, (#[trigger] p[i]).0, p[i].1)
    &&& forall|i: int| 0 <= i < p.len() - 1 ==> adjacent(#[trigger] p[i], p[i + 1])
}

/// A walk over floor cells leads from `a` to `b`.
pub open spec fn connected(g: Grid, a: (int, int), b: (int, int)) -> bool {
    exists|p: Seq<(int, int)>| floor_path(g, p) && p[0] == a && p.last() == b
}

/// `g2` has the size of `g` and every floor cell of `g` is floor in `g2`.
pub open spec fn keeps_floor(g: Grid, g2: Grid) -> bool {
    &&& is_grid(g2)
    &&& width_of(g2) == width_of(g)
    &&& height_of(g2) == height_of(g)
    &&& forall|x: int, y: int| #[trigger] is_floor(g, x, y) ==> is_floor(g2, x, y)
}

/// A floor walk stays one when no floor cell is lost.
pub proof fn lemma_connected_kept(g: Grid, g2: Grid, a: (int, int), b: (int, int))
    requires
        connected(g, a, b),
        keeps_floor(g, g2),
    ensures
        connected(g2, a, b),
{
    let p = choose|p: Seq<(int, int)>| floor_path(g, p) && p[0] == a && p.last() == b;
    assert forall|i: int| 0 <= i < p.len() implies is_floor(g2, (#[trigger] p[i]).0, p[i].1) by {
        assert(is_floor(g, p[i].0, p[i].1));
    }
    assert(floor_path(g2, p));
}

/// Floor walks join end to end.
pub proof fn lemma_connected_trans(g: Grid, a: (int, int), b: (int, int), c: (int, int))
    requires
        connected(g, a, b),
        connected(g, b, c),
    ensures
        connected(g, a, c),
{
    let p = choose|p: Seq<(int, int)>| floor_path(g, p) && p[0] == a && p.last() == b;
    let q = choose|q: Seq<(int, int)>| floor_path(g, q) && q[0] == b && q.last() == c;
    let r = p + q.drop_first();
    assert forall|i: int| 0 <= i < r.len() implies is_floor(g, (#[trigger] r[i]).0, r[i].1) by {
        if i < p.len() {
            assert(r[i] == p[i]);
        } else {
            assert(r[i] == q[i - p.len() + 1]);
        }
    }
    assert forall|i: int| 0 <= i < r.len() - 1 implies adjacent(#[trigger] r[i], r[i + 1]) by {
        if i < p.len() - 1 {
            assert(r[i] == p[i] && r[i + 1] == p[i + 1]);
        } else if i == p.len() - 1 {
            assert(r[i] == p.last());
            assert(r[i + 1] == q[1]);
            assert(adjacent(q[0], q[1]));
        } else {
            assert(r[i] == q[i - p.len() + 1]);
            assert(r[i + 1] == q[i - p.len() + 2]);
        }
    }
    if q.len() == 1 {
        assert(r =~= p);
    } else {
        assert(r.last() == q.last());
    }
}

/// The straight walk along row `y` from column `x1` to column `x2`.
pub open spec fn row_walk(x1: int, x2: int, y: int) -> Seq<(int, int)> {
    if x1 <= x2 {
        Seq::new((x2 - x1 + 1) as nat, |k: int| (x1 + k, y))
    } else {
        Seq::new((x1 - x2 + 1) as nat, |k: int| (x1 - k, y))
    }
}

/// The straight walk along column `x` from row `y1` to row `y2`.
pub open spec fn column_walk(x: int, y1: int, y2: int) -> Seq<(int, int)> {
    if y1 <= y2 {
        Seq::new((y2 - y1 + 1) as nat, |k: int| (x, y1 + k))
    } else {
        Seq::new((y1 - y2 + 1) as nat, |k: int| (x, y1 - k))
    }
}

proof fn lemma_row_connected(g: Grid, x1: int, x2: int, y: int)
    requires
        forall|x: int| min_of(x1, x2) <= x <= max_of(x1, x2) ==> #[trigger] is_floor(g, x, y),
    ensures
        connected(g, (x1, y), (x2, y)),
{
    let p = row_walk(x1, x2, y);
    assert forall|i: int| 0 <= i < p.len() implies is_floor(g, (#[trigger] p[i]).0, p[i].1) by {
        assert(min_of(x1, x2) <= p[i].0 <= max_of(x1, x2));
    }
    assert(floor_path(g, p));
    assert(p[0] == (x1, y));
    assert(p.last() == (x2, y));
}

proof fn lemma_column_connected(g: Grid, x: int, y1: int, y2: int)
    requires
        forall|y: int| min_of(y1, y2) <= y <= max_of(y1, y2) ==> #[trigger] is_floor(g, x, y),
    ensures
        connected(g, (x, y1), (x, y2)),
{
    let p = column_walk(x, y1, y2);
    assert forall|i: int| 0 <= i < p.len() implies is_floor(g, (#[trigger] p[i]).0, p[i].1) by {
        assert(min_of(y1, y2) <= p[i].1 <= max_of(y1, y2));
    }
    assert(floor_path(g, p));
    assert(p[0] == (x, y1));
    assert(p.last() == (x, y2));
}

/// Once a corridor between `a` and `b` is carved, a floor walk leads from `a` to `b`.
pub proof fn lemma_corridor_connects(g: Grid, a: (int, int), b: (int, int), horizontal_first: bool)
    requires
        is_grid(g),
        in_grid(g, a.0, a.1),
        in_grid(g, b.0, b.1),
    ensures
        connected(paint(g, corridor(a, b, horizontal_first), floor_tile()), a, b),
{
    let r = corridor(a, b, horizontal_first);
    let g2 = paint(g, r, floor_tile());
    lemma_paint_shape(g, r, floor_tile());
    if horizontal_first {
        assert forall|x: int| min_of(a.0, b.0) <= x <= max_of(a.0, b.0) implies #[trigger] is_floor(g2, x, a.1) by {
            assert(r(x, a.1));
        }
        assert forall|y: int| min_of(a.1, b.1) <= y <= max_of(a.1, b.1) implies #[trigger] is_floor(g2, b.0, y) by {
            assert(r(b.0, y));
        }
        lemma_row_connected(g2, a.0, b.0, a.1);
        lemma_column_connected(g2, b.0, a.1, b.1);
        lemma_connected_trans(g2, a, (b.0, a.1), b);
    } else {
        assert forall|y: int| min_of(a.1, b.1) <= y <= max_of(a.1, b.1) implies #[trigger] is_floor(g2, a.0, y) by {
            assert(r(a.0, y));
        }
        assert forall|x: int| min_of(a.0, b.0) <= x <= max_of(a.0, b.0) implies #[trigger] is_floor(g2, x, b.1) by {
            assert(r(x, b.1));
        }
        lemma_column_connected(g2, a.0, a.1, b.1);
        lemma_row_connected(g2, a.0, b.0, b.1);
        lemma_connected_trans(g2, a, (a.0, b.1), b);
    }
}

/// Carving floor loses no floor cell.
pub proof fn lemma_paint_floor_keeps_floor(g: Grid, r: spec_fn(int, int) -> bool)
    requires
        is_grid(g),
    ensures
        keeps_floor(g, paint(g, r, floor_tile())),
{
    lemma_paint_shape(g, r, floor_tile());
}

/// Losing no floor cell twice loses none.
pub proof fn lemma_keeps_floor_trans(g1: Grid, g2: Grid, g3: Grid)
    requires
        keeps_floor(g1, g2),
        keeps_floor(g2, g3),
    ensures
        keeps_floor(g1, g3),
{
    assert forall|x: int, y: int| #[trigger] is_floor(g1, x, y) implies is_floor(g3, x, y) by {
        assert(is_floor(g2, x, y));
    }
}

/// A grid loses no floor cell against itself.
pub proof fn lemma_keeps_floor_refl(g: Grid)
    requires
        is_grid(g),
    ensures
        keeps_floor(g, g),
{
}

} // verus!
