use vstd::prelude::*;

verus! {

/// One cell of the grid.
#[derive(Clone, Copy, Debug, PartialEq, Eq, Structural)]
pub struct Tile {
    pub blocked: bool,
    pub explored: bool,
    pub block_sight: bool,
}

impl Tile {
    /// A floor cell: passable and transparent.
    pub fn empty() -> (t: Tile)
        ensures
            t == floor_tile(),
    {
        Tile { blocked: false, explored: false, block_sight: false }
    }

    /// A wall cell: blocks movement and sight.
    pub fn wall() -> (t: Tile)
        ensures
            t == wall_tile(),
    {
        Tile { blocked: true, explored: false, block_sight: true }
    }
}

pub open spec fn floor_tile() -> Tile {
    Tile { blocked: false, explored: false, block_sight: false }
}

pub open spec fn wall_tile() -> Tile {
    Tile { blocked: true, explored: false, block_sight: true }
}

/// The grid, indexed `[x][y]`: one column of `height` tiles for each `x`.
pub type TileMap = Vec<Vec<Tile>>;

/// A grid as a sequence of columns.
pub type Grid = Seq<Seq<Tile>>;

pub open spec fn grid_of(m: &TileMap) -> Grid {
    m@.map_values(|col: Vec<Tile>| col@)
}

/// Every column has the same height, and there is at least one column.
pub open spec fn is_grid(g: Grid) -> bool {
    &&& g.len() > 0
    &&& forall|x: int| 0 <= x < g.len() ==> #[trigger] g[x].len() == g[0].len()
}

pub open spec fn width_of(g: Grid) -> int {
    g.len() as int
}

pub open spec fn height_of(g: Grid) -> int {
    g[0].len() as int
}

pub open spec fn in_grid(g: Grid, x: int, y: int) -> bool {
    0 <= x < width_of(g) && 0 <= y < height_of(g)
}

pub open spec fn is_floor(g: Grid, x: int, y: int) -> bool {
    in_grid(g, x, y) && !g[x][y].blocked
}

/// `g` with every cell of `region` set to `t`, and every other cell as it was.
pub open spec fn paint(g: Grid, region: spec_fn(int, int) -> bool, t: Tile) -> Grid {
    Seq::new(g.len(), |x: int| Seq::new(g[x].len(), |y: int| if region(x, y) { t } else { g[x][y] }))
}

/// The cells of the inclusive box `[xl, xh] x [yl, yh]`.
pub open spec fn in_box(xl: int, xh: int, yl: int, yh: int, x: int, y: int) -> bool {
    xl <= x <= xh && yl <= y <= yh
}

pub open spec fn box_region(xl: int, xh: int, yl: int, yh: int) -> spec_fn(int, int) -> bool {
    |x: int, y: int| in_box(xl, xh, yl, yh, x, y)
}

/// An all-wall grid of the given size.
pub open spec fn walls(w: int, h: int) -> Grid {
    Seq::new(w as nat, |x: int| Seq::new(h as nat, |y: int| wall_tile()))
}

/// A grid of `width` columns of `height` walls each.
pub fn new_walls(width: usize, height: usize) -> (m: TileMap)
    requires
        width > 0,
    ensures
        grid_of(&m) == walls(width as int, height as int),
{
    let mut m: TileMap = Vec::new();
    let mut x: usize = 0;
    while x < width
        invariant
            x <= width,
            m@.len() == x,
            forall|i: int| 0 <= i < x ==> (#[trigger] m@[i])@ == Seq::new(height as nat, |y: int| wall_tile()),
        decreases width - x,
    {
        let mut col: Vec<Tile> = Vec::new();
        let mut y: usize = 0;
        while y < height
            invariant
                y <= height,
                col@ == Seq::new(y as nat, |j: int| wall_tile()),
            decreases height - y,
        {
            col.push(Tile::wall());
            y = y + 1;
            assert(col@ =~= Seq::new(y as nat, |j: int| wall_tile()));
        }
        m.push(col);
        x = x + 1;
    }
    assert(grid_of(&m) =~= walls(width as int, height as int));
    m
}

/// Sets the cell `(x, y)` to `t`.
pub(crate) fn set_cell(map: &mut TileMap, x: usize, y: usize, t: Tile)
    requires
        is_grid(grid_of(old(map))),
        in_grid(grid_of(old(map)), x as int, y as int),
    ensures
        grid_of(final(map)) == grid_of(old(map)).update(x as int, grid_of(old(map))[x as int].update(y as int, t)),
{
    let ghost g0 = grid_of(map);
    assert(map@[x as int]@ == g0[x as int]);
    map[x].set(y, t);
    assert(grid_of(map) =~= g0.update(x as int, g0[x as int].update(y as int, t)));
}

/// Painting keeps the grid's size and sets exactly the cells of the region.
pub proof fn lemma_paint_shape(g: Grid, region: spec_fn(int, int) -> bool, t: Tile)
    requires
        is_grid(g),
    ensures
        is_grid(paint(g, region, t)),
        width_of(paint(g, region, t)) == width_of(g),
        height_of(paint(g, region, t)) == height_of(g),
        forall|x: int, y: int| in_grid(g, x, y) ==> (#[trigger] paint(g, region, t)[x][y]) == if region(x, y) { t } else { g[x][y] },
{
    let p = paint(g, region, t);
    assert forall|x: int| 0 <= x < p.len() implies #[trigger] p[x].len() == p[0].len() by {
        assert(g[x].len() == g[0].len());
    }
}

/// Painting two regions with one tile is painting their union.
pub proof fn lemma_paint_twice(g: Grid, r1: spec_fn(int, int) -> bool, r2: spec_fn(int, int) -> bool, t: Tile)
    requires
        is_grid(g),
    ensures
        paint(paint(g, r1, t), r2, t) == paint(g, |x: int, y: int| r1(x, y) || r2(x, y), t),
{
    lemma_paint_shape(g, r1, t);
    assert(paint(paint(g, r1, t), r2, t) =~~= paint(g, |x: int, y: int| r1(x, y) || r2(x, y), t));
}

/// Sets every cell of the inclusive box `[xl, xh] x [yl, yh]` to `t`.
pub(crate) fn fill_box(map: &mut TileMap, xl: i64, xh: i64, yl: i64, yh: i64, t: Tile)
    requires
        is_grid(grid_of(old(map))),
        0 <= xl,
        xh < width_of(grid_of(old(map))),
        0 <= yl,
        yh < height_of(grid_of(old(map))),
        xh <= i32::MAX,
        yh <= i32::MAX,
    ensures
        grid_of(final(map)) == paint(grid_of(old(map)), box_region(xl as int, xh as int, yl as int, yh as int), t),
{
    let ghost g0 = grid_of(map);
    proof {
        lemma_paint_shape(g0, box_region(xl as int, xl - 1, yl as int, yh as int), t);
        assert(grid_of(map) =~~= paint(g0, box_region(xl as int, xl - 1, yl as int, yh as int), t));
    }
    let mut x: i64 = xl;
    while x <= xh
        invariant
            xl <= x <= xh as int + 1 || (x == xl && xl > xh),
            0 <= xl,
            0 <= yl,
            xh <= i32::MAX,
            yh <= i32::MAX,
            xh < width_of(g0),
            yh < height_of(g0),
            is_grid(g0),
            grid_of(map) == paint(g0, box_region(xl as int, x - 1, yl as int, yh as int), t),
        decreases xh + 1 - x,
    {
        let mut y: i64 = yl;
        proof {
            lemma_paint_shape(g0, |i: int, j: int| in_box(xl as int, x - 1, yl as int, yh as int, i, j) || (i == x && yl <= j < y), t);
            assert(grid_of(map) =~~= paint(g0, |i: int, j: int| in_box(xl as int, x - 1, yl as int, yh as int, i, j) || (i == x && yl <= j < y), t));
        }
        while y <= yh
            invariant
                yl <= y <= yh as int + 1 || (y == yl && yl > yh),
                0 <= yl,
                xl <= x <= xh,
                0 <= xl,
                yh <= i32::MAX,
                xh < width_of(g0),
                yh < height_of(g0),
                is_grid(g0),
                grid_of(map) == paint(g0, |i: int, j: int| in_box(xl as int, x - 1, yl as int, yh as int, i, j) || (i == x && yl <= j < y), t),
            decreases yh + 1 - y,
        {
            proof {
                lemma_paint_shape(g0, |i: int, j: int| in_box(xl as int, x - 1, yl as int, yh as int, i, j) || (i == x && yl <= j < y), t);
            }
            let ghost g1 = grid_of(map);
            assert(g1.len() == map@.len());
            assert(g1[x as int].len() == map@[x as int]@.len());
            let ncols: usize = map.len();
            assert(x < ncols);
            let xu: usize = x as usize;
            let nrows: usize = map[xu].len();
            assert(y < nrows);
            let yu: usize = y as usize;
            set_cell(map, xu, yu, t);
            proof {
                assert(xu as int == x && yu as int == y);
                assert(grid_of(map) == g1.update(x as int, g1[x as int].update(y as int, t)));
                lemma_paint_shape(g0, |i: int, j: int| in_box(xl as int, x - 1, yl as int, yh as int, i, j) || (i == x && yl <= j < y + 1), t);
                assert(grid_of(map) =~~= paint(g0, |i: int, j: int| in_box(xl as int, x - 1, yl as int, yh as int, i, j) || (i == x && yl <= j < y + 1), t));
            }
            y = y + 1;
        }
        proof {
            lemma_paint_shape(g0, box_region(xl as int, x as int, yl as int, yh as int), t);
            assert(grid_of(map) =~~= paint(g0, box_region(xl as int, x as int, yl as int, yh as int), t));
        }
        x = x + 1;
    }
    proof {
        lemma_paint_shape(g0, box_region(xl as int, xh as int, yl as int, yh as int), t);
        assert(grid_of(map) =~~= paint(g0, box_region(xl as int, xh as int, yl as int, yh as int), t));
    }
}

} // verus!
