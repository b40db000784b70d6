use crate::carve::ROOM_MIN_SIZE;
use crate::dice::roll;
use crate::map::in_box;
use crate::rect::Rect;
use vstd::prelude::*;

verus! {

/// The number of splitting rounds used for a level.
pub const ITERATIONS: i32 = 6;

/// The cell `(x, y)` lies in `r`, corners included.
pub open spec fn contains(r: Rect, x: int, y: int) -> bool {
    in_box(r.x0 as int, r.xf as int, r.y0 as int, r.yf as int, x, y)
}

/// `r` lies inside `b`.
pub open spec fn within(r: Rect, b: Rect) -> bool {
    b.x0 <= r.x0 && r.xf <= b.xf && b.y0 <= r.y0 && r.yf <= b.yf
}

/// No cell lies in both rectangles.
pub open spec fn disjoint(r: Rect, s: Rect) -> bool {
    r.xf < s.x0 || s.xf < r.x0 || r.yf < s.y0 || s.yf < r.y0
}

/// The regions exactly tile `b`: each lies inside it, no two share a cell, and every
/// cell of `b` lies in one of them.
pub open spec fn tiles(cells: Seq<Rect>, b: Rect) -> bool {
    &&& forall|i: int| 0 <= i < cells.len() ==> within(#[trigger] cells[i], b)
    &&& forall|i: int, j: int|
        0 <= i < cells.len() && 0 <= j < cells.len() && i != j ==> disjoint(#[trigger] cells[i], #[trigger] cells[j])
    &&& forall|x: int, y: int| contains(b, x, y) ==> exists|i: int| 0 <= i < cells.len() && #[trigger] contains(cells[i], x, y)
}

/// Both spans of the region are at least `ROOM_MIN_SIZE` cells.
pub open spec fn sized(r: Rect) -> bool {
    r.xf - r.x0 >= ROOM_MIN_SIZE - 1 && r.yf - r.y0 >= ROOM_MIN_SIZE - 1
}

/// A region too small to split further.
pub open spec fn is_terminal(c: Rect) -> bool {
    c.xf - c.x0 <= 2 * ROOM_MIN_SIZE && c.yf - c.y0 <= 2 * ROOM_MIN_SIZE
}

/// Whether a region is cut along x (into a left and a right part): forced for a narrow
/// or a tall region, forced the other way for a low or a wide one (a ratio above 3),
/// and otherwise decided by the coin, `heads` meaning a cut along y.
pub open spec fn splits_vertically(c: Rect, heads: bool) -> bool {
    let w = c.xf - c.x0;
    let h = c.yf - c.y0;
    if w <= 2 * ROOM_MIN_SIZE || h > 3 * w {
        false
    } else if h <= 2 * ROOM_MIN_SIZE || w > 3 * h {
        true
    } else {
        !heads
    }
}

/// The cut leaves at least `ROOM_MIN_SIZE` on each side.
pub open spec fn cut_in_range(c: Rect, vertical: bool, at: int) -> bool {
    if vertical {
        c.x0 + ROOM_MIN_SIZE <= at <= c.xf - ROOM_MIN_SIZE
    } else {
        c.y0 + ROOM_MIN_SIZE <= at <= c.yf - ROOM_MIN_SIZE
    }
}

pub open spec fn first_half(c: Rect, vertical: bool, at: int) -> Rect {
    if vertical {
        Rect { x0: c.x0, y0: c.y0, xf: at as i32, yf: c.yf }
    } else {
        Rect { x0: c.x0, y0: c.y0, xf: c.xf, yf: at as i32 }
    }
}

pub open spec fn second_half(c: Rect, vertical: bool, at: int) -> Rect {
    if vertical {
        Rect { x0: (at + 1) as i32, y0: c.y0, xf: c.xf, yf: c.yf }
    } else {
        Rect { x0: c.x0, y0: (at + 1) as i32, xf: c.xf, yf: c.yf }
    }
}

/// `r` is what splitting `c` may give: `c` itself when it is terminal, else its two
/// halves at a cut in range along the axis that the rule picks for some coin.
pub open spec fn split_of(c: Rect, r: (Rect, Option<Rect>)) -> bool {
    if is_terminal(c) {
        r == (c, None::<Rect>)
    } else {
        exists|heads: bool, at: int|
            cut_in_range(c, splits_vertically(c, heads), at)
                && r == (first_half(c, splits_vertically(c, heads), at), Some(second_half(c, splits_vertically(c, heads), at)))
    }
}

/// Which axis to cut a non-terminal region along, given the coin.
pub fn choose_axis(cell: Rect, heads: bool) -> (vertical: bool)
    requires
        cell.x0 <= cell.xf,
        cell.y0 <= cell.yf,
    ensures
        vertical == splits_vertically(cell, heads),
{
    let w: i64 = cell.xf as i64 - cell.x0 as i64;
    let h: i64 = cell.yf as i64 - cell.y0 as i64;
    let m: i64 = 2 * ROOM_MIN_SIZE as i64;
    if w <= m || h > 3 * w {
        false
    } else if h <= m || w > 3 * h {
        true
    } else {
        !heads
    }
}

/// Splits a non-terminal region at `at` along the given axis.
pub fn split_cell(cell: Rect, vertical: bool, at: i32) -> (r: (Rect, Rect))
    requires
        cut_in_range(cell, vertical, at as int),
    ensures
        r.0 == first_half(cell, vertical, at as int),
        r.1 == second_half(cell, vertical, at as int),
{
    if vertical {
        (Rect::new(cell.x0, cell.y0, at, cell.yf), Rect::new(at + 1, cell.y0, cell.xf, cell.yf))
    } else {
        (Rect::new(cell.x0, cell.y0, cell.xf, at), Rect::new(cell.x0, at + 1, cell.xf, cell.yf))
    }
}

/// Splits one region in two at random, or keeps it whole when it is terminal.
pub fn split_single_cell(cell: Rect, rng: &mut rand::StdRng) -> (r: (Rect, Option<Rect>))
    requires
        cell.x0 <= cell.xf,
        cell.y0 <= cell.yf,
    ensures
        split_of(cell, r),
{
    let cell_width: i64 = cell.xf as i64 - cell.x0 as i64;
    let cell_height: i64 = cell.yf as i64 - cell.y0 as i64;
    if cell_width <= 2 * ROOM_MIN_SIZE as i64 && cell_height <= 2 * ROOM_MIN_SIZE as i64 {
        return (cell, None);
    }
    let w: i64 = cell_width;
    let h: i64 = cell_height;
    let m: i64 = 2 * ROOM_MIN_SIZE as i64;
    let forced: bool = w <= m || h > 3 * w || h <= m || w > 3 * h;
    let heads: bool = if forced {
        false
    } else {
        roll(rng, 0, 2) == 1
    };
    let vertical = choose_axis(cell, heads);
    let at: i32 = if vertical {
        roll(rng, cell.x0 + ROOM_MIN_SIZE, cell.xf - ROOM_MIN_SIZE + 1)
    } else {
        roll(rng, cell.y0 + ROOM_MIN_SIZE, cell.yf - ROOM_MIN_SIZE + 1)
    };
    let (a, b) = split_cell(cell, vertical, at);
    assert(cut_in_range(cell, splits_vertically(cell, heads), at as int));
    (a, Some(b))
}

/// What a split gives lies inside the region, is sized when the region is, and the two
/// parts share no cell and together cover the region.
pub proof fn lemma_split_parts(c: Rect, r: (Rect, Option<Rect>))
    requires
        split_of(c, r),
        sized(c),
    ensures
        within(r.0, c),
        sized(r.0),
        r.1 is Some ==> within(r.1->0, c) && sized(r.1->0) && disjoint(r.0, r.1->0),
        forall|x: int, y: int|
            contains(c, x, y) ==> contains(r.0, x, y) || (r.1 is Some && contains(r.1->0, x, y)),
{
    if !is_terminal(c) {
        let (heads, at) = choose|heads: bool, at: int|
            cut_in_range(c, splits_vertically(c, heads), at)
                && r == (first_half(c, splits_vertically(c, heads), at), Some(second_half(c, splits_vertically(c, heads), at)));
        let v = splits_vertically(c, heads);
        assert(r.0 == first_half(c, v, at));
        assert(r.1->0 == second_half(c, v, at));
    }
}

/// The most regions that `rounds` rounds of splitting can give: each round at most doubles them.
pub open spec fn max_regions(rounds: nat) -> nat
    decreases rounds,
{
    if rounds == 0 {
        1
    } else {
        2 * max_regions((rounds - 1) as nat)
    }
}

/// More rounds allow at least as many regions.
pub proof fn lemma_max_regions_monotone(a: nat, b: nat)
    requires
        a <= b,
    ensures
        max_regions(a) <= max_regions(b),
    decreases b,
{
    if a < b {
        lemma_max_regions_monotone(a, (b - 1) as nat);
    }
}

/// The regions that a list of split results gives, in order.
pub open spec fn flatten_splits(rs: Seq<(Rect, Option<Rect>)>) -> Seq<Rect>
    decreases rs.len(),
{
    if rs.len() == 0 {
        Seq::empty()
    } else {
        let f = flatten_splits(rs.drop_last()).push(rs.last().0);
        match rs.last().1 {
            Some(s) => f.push(s),
            None => f,
        }
    }
}

/// `next` is `cells` with each region replaced, in order, by what splitting it gives:
/// a terminal region by itself, any other by its two halves.
pub open spec fn splits_into(cells: Seq<Rect>, next: Seq<Rect>) -> bool {
    exists|rs: Seq<(Rect, Option<Rect>)>|
        rs.len() == cells.len() && (forall|i: int| 0 <= i < rs.len() ==> split_of(cells[i], #[trigger] rs[i]))
            && next == flatten_splits(rs)
}

/// One round: every region replaced, in order, by what splitting it gives. When the
/// regions tile `b`, so do the new ones, and the count at most doubles.
fn split_round(cells: &Vec<Rect>, Ghost(b): Ghost<Rect>, rng: &mut rand::StdRng) -> (new_cells: Vec<Rect>)
    requires
        cells.len() >= 1,
        tiles(cells@, b),
        forall|k: int| 0 <= k < cells.len() ==> sized(#[trigger] cells@[k]),
    ensures
        1 <= new_cells.len() <= 2 * cells.len(),
        splits_into(cells@, new_cells@),
        tiles(new_cells@, b),
        forall|k: int| 0 <= k < new_cells.len() ==> sized(#[trigger] new_cells@[k]),
{
    let mut new_cells: Vec<Rect> = Vec::new();
    let ghost mut owner: Seq<int> = Seq::empty();
    let ghost mut rs: Seq<(Rect, Option<Rect>)> = Seq::empty();
    let mut i: usize = 0;
    while i < cells.len()
        invariant
            0 <= i <= cells.len(),
            cells.len() >= 1,
            tiles(cells@, b),
            forall|k: int| 0 <= k < cells.len() ==> sized(#[trigger] cells@[k]),
            owner.len() == new_cells.len(),
            rs.len() == i,
            forall|k: int| 0 <= k < i ==> split_of(cells@[k], #[trigger] rs[k]),
            new_cells@ == flatten_splits(rs),
            new_cells.len() <= 2 * i,
            i > 0 ==> new_cells.len() >= 1,
            forall|k: int|
                0 <= k < new_cells.len() ==> 0 <= #[trigger] owner[k] < i && within(new_cells@[k], cells@[owner[k]])
                    && sized(new_cells@[k]),
            forall|k: int, l: int|
                0 <= k < new_cells.len() && 0 <= l < new_cells.len() && k != l && owner[k] == owner[l]
                    ==> disjoint(#[trigger] new_cells@[k], #[trigger] new_cells@[l]),
            forall|j: int, x: int, y: int|
                0 <= j < i && #[trigger] contains(cells@[j], x, y) ==> exists|k: int|
                    0 <= k < new_cells.len() && owner[k] == j && #[trigger] contains(new_cells@[k], x, y),
        decreases cells.len() - i,
    {
        let this_cell = cells[i];
        let (t1, t2) = split_single_cell(this_cell, rng);
        proof {
            lemma_split_parts(this_cell, (t1, t2));
        }
        let ghost prev = new_cells@;
        let ghost prev_owner = owner;
        let ghost prev_rs = rs;
        new_cells.push(t1);
        proof {
            owner = owner.push(i as int);
        }
        match t2 {
            Some(t) => {
                new_cells.push(t);
                proof {
                    owner = owner.push(i as int);
                }
            },
            None => {},
        }
        proof {
            rs = rs.push((t1, t2));
            assert(rs.drop_last() =~= prev_rs);
            assert(new_cells@ =~= flatten_splits(rs));
        }
        proof {
            assert forall|k: int| 0 <= k < prev.len() implies new_cells@[k] == prev[k] && owner[k] == prev_owner[k] by {}
            assert forall|j: int, x: int, y: int|
                0 <= j < i + 1 && #[trigger] contains(cells@[j], x, y) implies exists|k: int|
                    0 <= k < new_cells.len() && owner[k] == j && #[trigger] contains(new_cells@[k], x, y) by {
                if j < i {
                    let k = choose|k: int| 0 <= k < prev.len() && prev_owner[k] == j && #[trigger] contains(prev[k], x, y);
                    assert(new_cells@[k] == prev[k]);
                } else {
                    if contains(t1, x, y) {
                        assert(new_cells@[prev.len() as int] == t1);
                        assert(contains(new_cells@[prev.len() as int], x, y));
                    } else {
                        assert(new_cells@[prev.len() as int + 1] == t2->0);
                        assert(contains(new_cells@[prev.len() as int + 1], x, y));
                    }
                }
            }
        }
        i = i + 1;
    }
    proof {
        assert forall|k: int| 0 <= k < new_cells.len() implies sized(#[trigger] new_cells@[k]) by {
            assert(0 <= owner[k]);
        }
        assert forall|k: int| 0 <= k < new_cells.len() implies within(#[trigger] new_cells@[k], b) by {
            assert(within(cells@[owner[k]], b));
        }
        assert forall|k: int, l: int|
            0 <= k < new_cells.len() && 0 <= l < new_cells.len() && k != l implies disjoint(#[trigger] new_cells@[k], #[trigger] new_cells@[l]) by {
            if owner[k] != owner[l] {
                assert(disjoint(cells@[owner[k]], cells@[owner[l]]));
            }
        }
        assert forall|x: int, y: int| contains(b, x, y) implies exists|k: int| 0 <= k < new_cells.len() && #[trigger] contains(new_cells@[k], x, y) by {
            let j = choose|j: int| 0 <= j < cells.len() && #[trigger] contains(cells@[j], x, y);
            let k = choose|k: int| 0 <= k < new_cells.len() && owner[k] == j && #[trigger] contains(new_cells@[k], x, y);
        }
    }
    new_cells
}

/// Divides the rectangle `(0, 0)`-`(width, height)` into regions: each round replaces
/// every region by the result of splitting it.
pub fn binary_space_partition(width: i32, height: i32, iterations: i32, rng: &mut rand::StdRng) -> (cells: Vec<Rect>)
    requires
        width > ROOM_MIN_SIZE,
        height > ROOM_MIN_SIZE,
        iterations > 0,
    ensures
        1 <= cells.len() <= max_regions(iterations as nat),
        exists|rounds: Seq<Seq<Rect>>|
            rounds.len() == iterations + 1 && rounds[0] == seq![Rect { x0: 0, y0: 0, xf: width, yf: height }]
                && (forall|k: int| 0 <= k < iterations ==> #[trigger] splits_into(rounds[k], rounds[k + 1]))
                && rounds.last() == cells@,
        tiles(cells@, Rect { x0: 0, y0: 0, xf: width, yf: height }),
        forall|i: int| 0 <= i < cells.len() ==> sized(#[trigger] cells@[i]),
{
    let ghost b = Rect { x0: 0, y0: 0, xf: width, yf: height };
    let mut cells: Vec<Rect> = Vec::new();
    cells.push(Rect::new(0, 0, width, height));
    assert(contains(cells@[0], 0, 0));
    assert forall|x: int, y: int| contains(b, x, y) implies exists|i: int| 0 <= i < cells@.len() && #[trigger] contains(cells@[i], x, y) by {
        assert(contains(cells@[0], x, y));
    }
    assert(max_regions(0) == 1);
    let ghost mut rounds: Seq<Seq<Rect>> = seq![cells@];
    assert(cells@ =~= seq![b]);
    let mut iter: i32 = 0;
    while iter < iterations
        invariant
            0 <= iter <= iterations,
            1 <= cells.len() <= max_regions(iter as nat),
            rounds.len() == iter + 1,
            rounds[0] == seq![b],
            forall|k: int| 0 <= k < iter ==> #[trigger] splits_into(rounds[k], rounds[k + 1]),
            rounds.last() == cells@,
            tiles(cells@, b),
            forall|i: int| 0 <= i < cells.len() ==> sized(#[trigger] cells@[i]),
        decreases iterations - iter,
    {
        let new_cells = split_round(&cells, Ghost(b), rng);
        proof {
            let prev_rounds = rounds;
            rounds = rounds.push(new_cells@);
            assert forall|k: int| 0 <= k < iter + 1 implies #[trigger] splits_into(rounds[k], rounds[k + 1]) by {
                if k < iter {
                    assert(rounds[k] == prev_rounds[k] && rounds[k + 1] == prev_rounds[k + 1]);
                }
            }
        }
        assert(max_regions((iter + 1) as nat) == 2 * max_regions(iter as nat));
        cells = new_cells;
        iter = iter + 1;
    }
    cells
}

} // verus!
