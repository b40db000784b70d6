use crate::dice::{flip, roll};
use crate::map::{
    box_region, fill_box, set_cell, floor_tile, grid_of, in_box, in_grid, is_grid, lemma_paint_shape, lemma_paint_twice, paint,
    is_floor, wall_tile, width_of, height_of, Grid, Tile, TileMap,
};
use crate::rect::Rect;
use vstd::prelude::*;

verus! {

/// The smallest side, in cells, that a room is given.
pub const ROOM_MIN_SIZE: i32 = 5;

/// The largest span of a region that an elliptic room is computed for.
pub const MAX_SPAN: i32 = 1048576;

pub open spec fn min_of(a: int, b: int) -> int {
    if a <= b { a } else { b }
}

pub open spec fn max_of(a: int, b: int) -> int {
    if a <= b { b } else { a }
}

/// The cells strictly inside a rectangle's corners.
pub open spec fn interior(r: Rect) -> spec_fn(int, int) -> bool {
    box_region(r.x0 + 1, r.xf - 1, r.y0 + 1, r.yf - 1)
}

/// The interior of `r` lies inside the grid.
pub open spec fn interior_fits(r: Rect, g: Grid) -> bool {
    -1 <= r.x0 && r.xf <= width_of(g) && -1 <= r.y0 && r.yf <= height_of(g)
}

/// All of `r`, corners included, lies inside the grid.
pub open spec fn rect_in_grid(r: Rect, g: Grid) -> bool {
    0 <= r.x0 <= r.xf < width_of(g) && 0 <= r.y0 <= r.yf < height_of(g)
}

/// An L-shaped corridor between `a` and `b`: along the row of `a` then the column of `b`,
/// or along the column of `a` then the row of `b`.
pub open spec fn corridor(a: (int, int), b: (int, int), horizontal_first: bool) -> spec_fn(int, int) -> bool {
    |x: int, y: int|
        if horizontal_first {
            in_box(min_of(a.0, b.0), max_of(a.0, b.0), a.1, a.1, x, y)
                || in_box(b.0, b.0, min_of(a.1, b.1), max_of(a.1, b.1), x, y)
        } else {
            in_box(a.0, a.0, min_of(a.1, b.1), max_of(a.1, b.1), x, y)
                || in_box(min_of(a.0, b.0), max_of(a.0, b.0), b.1, b.1, x, y)
        }
}

/// A cell position.
#[derive(Clone, Copy, Debug, PartialEq, Eq, Structural)]
pub struct Corner {
    pub x: i32,
    pub y: i32,
}

/// The shape of a room carved into a region.
#[derive(Clone, Copy, Debug, PartialEq, Eq, Structural)]
pub enum RoomShape {
    /// An ellipse inscribed in the region, with a pillar at its center when it is large.
    Ellipse,
    /// A `w` by `h` rectangle centered in the region, and optionally a second one from the
    /// region's corner to the given far corner.
    Rectangles { w: i32, h: i32, second: Option<Corner> },
}

/// The ellipse test `((x - mx) / a)^2 + ((y - my) / b)^2 <= 1`, scaled by 20 so that it is exact:
/// `mx, my` is the region's midpoint and the semi-axes are half the spans less one tenth.
pub open spec fn in_ellipse(p: Rect, x: int, y: int) -> bool {
    let a = 10 * (p.xf - p.x0) - 2;
    let b = 10 * (p.yf - p.y0) - 2;
    let dx = 20 * x - 10 * (p.x0 + p.xf);
    let dy = 20 * y - 10 * (p.y0 + p.yf);
    (dx * dx) * (b * b) + (dy * dy) * (a * a) <= (a * a) * (b * b)
}

pub open spec fn ellipse_region(p: Rect) -> spec_fn(int, int) -> bool {
    |x: int, y: int| in_box(p.x0 as int, p.xf as int, p.y0 as int, p.yf as int, x, y) && in_ellipse(p, x, y)
}

/// Both semi-axes exceed 4.
pub open spec fn has_pillar(p: Rect) -> bool {
    p.xf - p.x0 >= 9 && p.yf - p.y0 >= 9
}

/// The 3 by 3 block at the region's center.
pub open spec fn pillar_region(p: Rect) -> spec_fn(int, int) -> bool {
    box_region(p.center_spec().0 - 1, p.center_spec().0 + 1, p.center_spec().1 - 1, p.center_spec().1 + 1)
}

pub open spec fn span_x(p: Rect) -> int {
    p.xf - p.x0 + 1
}

pub open spec fn span_y(p: Rect) -> int {
    p.yf - p.y0 + 1
}

/// The corner of the centered rectangle of a `w` by `h` room.
pub open spec fn first_corner(p: Rect, w: int, h: int) -> (int, int) {
    (p.x0 + (span_x(p) - w) / 2, p.y0 + (span_y(p) - h) / 2)
}

pub open spec fn first_room(p: Rect, w: int, h: int) -> spec_fn(int, int) -> bool {
    let c = first_corner(p, w, h);
    box_region(c.0 + 1, c.0 + w - 1, c.1 + 1, c.1 + h - 1)
}

pub open spec fn second_room(p: Rect, xx: int, yy: int) -> spec_fn(int, int) -> bool {
    box_region(p.x0 + 1, xx - 1, p.y0 + 1, yy - 1)
}

/// The region is one that rooms are carved into: inside the grid and at least
/// `ROOM_MIN_SIZE` cells wide and high.
pub open spec fn region_ok(p: Rect, g: Grid) -> bool {
    &&& rect_in_grid(p, g)
    &&& span_x(p) >= ROOM_MIN_SIZE
    &&& span_y(p) >= ROOM_MIN_SIZE
    &&& p.xf - p.x0 < MAX_SPAN
    &&& p.yf - p.y0 < MAX_SPAN
    &&& p.xf < i32::MAX
    &&& p.yf < i32::MAX
}

/// The draws of a shape are in their ranges for region `p`.
pub open spec fn shape_fits(p: Rect, s: RoomShape) -> bool {
    match s {
        RoomShape::Ellipse => true,
        RoomShape::Rectangles { w, h, second } => {
            &&& ROOM_MIN_SIZE <= w <= span_x(p)
            &&& ROOM_MIN_SIZE <= h <= span_y(p)
            &&& match second {
                None => true,
                Some(c) => first_corner(p, w as int, h as int).0 + 3 <= c.x <= p.xf
                    && first_corner(p, w as int, h as int).1 + 3 <= c.y <= p.yf,
            }
        },
    }
}

/// The grid after carving a room of shape `s` into region `p`.
pub open spec fn shaped(g: Grid, p: Rect, s: RoomShape) -> Grid {
    match s {
        RoomShape::Ellipse => {
            let e = paint(g, ellipse_region(p), floor_tile());
            if has_pillar(p) {
                paint(e, pillar_region(p), wall_tile())
            } else {
                e
            }
        },
        RoomShape::Rectangles { w, h, second } => {
            let r = paint(g, first_room(p, w as int, h as int), floor_tile());
            match second {
                None => r,
                Some(c) => paint(r, second_room(p, c.x as int, c.y as int), floor_tile()),
            }
        },
    }
}

/// Makes the interior of `room` floor.
pub fn carve_room(room: Rect, map: &mut TileMap)
    requires
        is_grid(grid_of(old(map))),
        interior_fits(room, grid_of(old(map))),
    ensures
        grid_of(final(map)) == paint(grid_of(old(map)), interior(room), floor_tile()),
{
    fill_box(map, room.x0 as i64 + 1, room.xf as i64 - 1, room.y0 as i64 + 1, room.yf as i64 - 1, Tile::empty());
}

/// Makes floor of row `y` from `x1` to `x2`, both included, in either order.
pub fn create_h_tunnel(x1: i32, x2: i32, y: i32, map: &mut TileMap)
    requires
        is_grid(grid_of(old(map))),
        in_grid(grid_of(old(map)), x1 as int, y as int),
        in_grid(grid_of(old(map)), x2 as int, y as int),
    ensures
        grid_of(final(map)) == paint(
            grid_of(old(map)),
            box_region(min_of(x1 as int, x2 as int), max_of(x1 as int, x2 as int), y as int, y as int),
            floor_tile(),
        ),
{
    let lo: i32 = if x1 <= x2 { x1 } else { x2 };
    let hi: i32 = if x1 <= x2 { x2 } else { x1 };
    fill_box(map, lo as i64, hi as i64, y as i64, y as i64, Tile::empty());
}

/// Makes floor of column `x` from `y1` to `y2`, both included, in either order.
pub fn create_v_tunnel(y1: i32, y2: i32, x: i32, map: &mut TileMap)
    requires
        is_grid(grid_of(old(map))),
        in_grid(grid_of(old(map)), x as int, y1 as int),
        in_grid(grid_of(old(map)), x as int, y2 as int),
    ensures
        grid_of(final(map)) == paint(
            grid_of(old(map)),
            box_region(x as int, x as int, min_of(y1 as int, y2 as int), max_of(y1 as int, y2 as int)),
            floor_tile(),
        ),
{
    let lo: i32 = if y1 <= y2 { y1 } else { y2 };
    let hi: i32 = if y1 <= y2 { y2 } else { y1 };
    fill_box(map, x as i64, x as i64, lo as i64, hi as i64, Tile::empty());
}

/// Carves the L-shaped corridor from `a` to `b` that `horizontal_first` selects.
pub fn carve_corridor(a: (i32, i32), b: (i32, i32), horizontal_first: bool, map: &mut TileMap)
    requires
        is_grid(grid_of(old(map))),
        in_grid(grid_of(old(map)), a.0 as int, a.1 as int),
        in_grid(grid_of(old(map)), b.0 as int, b.1 as int),
    ensures
        grid_of(final(map)) == paint(
            grid_of(old(map)),
            corridor((a.0 as int, a.1 as int), (b.0 as int, b.1 as int), horizontal_first),
            floor_tile(),
        ),
{
    let ghost g0 = grid_of(map);
    let ghost ai = (a.0 as int, a.1 as int);
    let ghost bi = (b.0 as int, b.1 as int);
    if horizontal_first {
        create_h_tunnel(a.0, b.0, a.1, map);
        proof {
            lemma_paint_shape(g0, box_region(min_of(ai.0, bi.0), max_of(ai.0, bi.0), ai.1, ai.1), floor_tile());
        }
        create_v_tunnel(a.1, b.1, b.0, map);
        proof {
            lemma_paint_twice(
                g0,
                box_region(min_of(ai.0, bi.0), max_of(ai.0, bi.0), ai.1, ai.1),
                box_region(bi.0, bi.0, min_of(ai.1, bi.1), max_of(ai.1, bi.1)),
                floor_tile(),
            );
            assert(paint(g0, |x: int, y: int| box_region(min_of(ai.0, bi.0), max_of(ai.0, bi.0), ai.1, ai.1)(x, y)
                || box_region(bi.0, bi.0, min_of(ai.1, bi.1), max_of(ai.1, bi.1))(x, y), floor_tile())
                =~~= paint(g0, corridor(ai, bi, true), floor_tile()));
        }
    } else {
        create_v_tunnel(a.1, b.1, a.0, map);
        proof {
            lemma_paint_shape(g0, box_region(ai.0, ai.0, min_of(ai.1, bi.1), max_of(ai.1, bi.1)), floor_tile());
        }
        create_h_tunnel(a.0, b.0, b.1, map);
        proof {
            lemma_paint_twice(
                g0,
                box_region(ai.0, ai.0, min_of(ai.1, bi.1), max_of(ai.1, bi.1)),
                box_region(min_of(ai.0, bi.0), max_of(ai.0, bi.0), bi.1, bi.1),
                floor_tile(),
            );
            assert(paint(g0, |x: int, y: int| box_region(ai.0, ai.0, min_of(ai.1, bi.1), max_of(ai.1, bi.1))(x, y)
                || box_region(min_of(ai.0, bi.0), max_of(ai.0, bi.0), bi.1, bi.1)(x, y), floor_tile())
                =~~= paint(g0, corridor(ai, bi, false), floor_tile()));
        }
    }
}

/// Connects the centers of two regions with an L-shaped corridor whose orientation is a
/// fair coin; returns whether it ran horizontally first.
pub fn carve_tunnel(room0: Rect, roomf: Rect, map: &mut TileMap, rng: &mut rand::StdRng) -> (horizontal_first: bool)
    requires
        is_grid(grid_of(old(map))),
        in_grid(grid_of(old(map)), room0.center_spec().0, room0.center_spec().1),
        in_grid(grid_of(old(map)), roomf.center_spec().0, roomf.center_spec().1),
    ensures
        grid_of(final(map)) == paint(grid_of(old(map)), corridor(room0.center_spec(), roomf.center_spec(), horizontal_first), floor_tile()),
{
    let a = room0.center();
    let b = roomf.center();
    let horizontal_first = flip(rng);
    carve_corridor(a, b, horizontal_first, map);
    horizontal_first
}

proof fn lemma_square_bound(u: int)
    requires
        -10485760 <= u <= 10485760,
    ensures
        0 <= u * u <= 109951162777600,
{
    assert(0 <= u * u <= 109951162777600) by (nonlinear_arith)
        requires
            -10485760 <= u <= 10485760,
    ;
}

proof fn lemma_product_bound(p: int, q: int)
    requires
        0 <= p <= 109951162777600,
        0 <= q <= 109951162777600,
    ensures
        0 <= p * q <= 12089258196146291747061760000,
{
    assert(0 <= p * q <= 12089258196146291747061760000) by (nonlinear_arith)
        requires
            0 <= p <= 109951162777600,
            0 <= q <= 109951162777600,
    ;
}

/// The ellipse test of `in_ellipse`, on machine integers.
fn ellipse_test(p: Rect, x: i32, y: i32) -> (r: bool)
    requires
        0 <= p.x0 <= x <= p.xf,
        0 <= p.y0 <= y <= p.yf,
        p.xf - p.x0 < MAX_SPAN,
        p.yf - p.y0 < MAX_SPAN,
    ensures
        r == in_ellipse(p, x as int, y as int),
{
    let a: i128 = 10 * (p.xf as i128 - p.x0 as i128) - 2;
    let b: i128 = 10 * (p.yf as i128 - p.y0 as i128) - 2;
    let dx: i128 = 20 * x as i128 - 10 * (p.x0 as i128 + p.xf as i128);
    let dy: i128 = 20 * y as i128 - 10 * (p.y0 as i128 + p.yf as i128);
    proof {
        lemma_square_bound(a as int);
        lemma_square_bound(b as int);
        lemma_square_bound(dx as int);
        lemma_square_bound(dy as int);
        lemma_product_bound(dx * dx, b * b);
        lemma_product_bound(dy * dy, a * a);
        lemma_product_bound(a * a, b * b);
    }
    (dx * dx) * (b * b) + (dy * dy) * (a * a) <= (a * a) * (b * b)
}

/// Carves the ellipse inscribed in region `p`, then re-blocks its central 3 by 3 block
/// when both semi-axes exceed 4.
pub fn create_room_ellipse(part: Rect, map: &mut TileMap)
    requires
        is_grid(grid_of(old(map))),
        rect_in_grid(part, grid_of(old(map))),
        part.xf - part.x0 < MAX_SPAN,
        part.yf - part.y0 < MAX_SPAN,
    ensures
        grid_of(final(map)) == shaped(grid_of(old(map)), part, RoomShape::Ellipse),
{
    let ghost g0 = grid_of(map);
    proof {
        lemma_paint_shape(g0, |i: int, j: int| in_box(part.x0 as int, part.x0 - 1, part.y0 as int, part.yf as int, i, j) && in_ellipse(part, i, j), floor_tile());
        assert(grid_of(map) =~~= paint(g0, |i: int, j: int| in_box(part.x0 as int, part.x0 - 1, part.y0 as int, part.yf as int, i, j) && in_ellipse(part, i, j), floor_tile()));
    }
    let mut x: i64 = part.x0 as i64;
    while x <= part.xf as i64
        invariant
            part.x0 <= x <= part.xf + 1,
            is_grid(g0),
            rect_in_grid(part, g0),
            part.xf - part.x0 < MAX_SPAN,
            part.yf - part.y0 < MAX_SPAN,
            grid_of(map) == paint(g0, |i: int, j: int| in_box(part.x0 as int, x - 1, part.y0 as int, part.yf as int, i, j) && in_ellipse(part, i, j), floor_tile()),
        decreases part.xf + 1 - x,
    {
        let mut y: i64 = part.y0 as i64;
        proof {
            lemma_paint_shape(g0, |i: int, j: int| (in_box(part.x0 as int, x - 1, part.y0 as int, part.yf as int, i, j) || (i == x && part.y0 <= j < y)) && in_ellipse(part, i, j), floor_tile());
            assert(grid_of(map) =~~= paint(g0, |i: int, j: int| (in_box(part.x0 as int, x - 1, part.y0 as int, part.yf as int, i, j) || (i == x && part.y0 <= j < y)) && in_ellipse(part, i, j), floor_tile()));
        }
        while y <= part.yf as i64
            invariant
                part.y0 <= y <= part.yf + 1,
                part.x0 <= x <= part.xf,
                is_grid(g0),
                rect_in_grid(part, g0),
                part.xf - part.x0 < MAX_SPAN,
                part.yf - part.y0 < MAX_SPAN,
                grid_of(map) == paint(g0, |i: int, j: int| (in_box(part.x0 as int, x - 1, part.y0 as int, part.yf as int, i, j) || (i == x && part.y0 <= j < y)) && in_ellipse(part, i, j), floor_tile()),
            decreases part.yf + 1 - y,
        {
            let ghost g1 = grid_of(map);
            proof {
                lemma_paint_shape(g0, |i: int, j: int| (in_box(part.x0 as int, x - 1, part.y0 as int, part.yf as int, i, j) || (i == x && part.y0 <= j < y)) && in_ellipse(part, i, j), floor_tile());
            }
            if ellipse_test(part, x as i32, y as i32) {
                let ncols: usize = map.len();
                assert(g1.len() == map@.len());
                assert(x < ncols);
                let xu: usize = x as usize;
                assert(g1[x as int].len() == map@[x as int]@.len());
                let nrows: usize = map[xu].len();
                assert(y < nrows);
                let yu: usize = y as usize;
                set_cell(map, xu, yu, Tile::empty());
            }
            proof {
                lemma_paint_shape(g0, |i: int, j: int| (in_box(part.x0 as int, x - 1, part.y0 as int, part.yf as int, i, j) || (i == x && part.y0 <= j < y + 1)) && in_ellipse(part, i, j), floor_tile());
                assert(grid_of(map) =~~= paint(g0, |i: int, j: int| (in_box(part.x0 as int, x - 1, part.y0 as int, part.yf as int, i, j) || (i == x && part.y0 <= j < y + 1)) && in_ellipse(part, i, j), floor_tile()));
            }
            y = y + 1;
        }
        proof {
            lemma_paint_shape(g0, |i: int, j: int| in_box(part.x0 as int, x as int, part.y0 as int, part.yf as int, i, j) && in_ellipse(part, i, j), floor_tile());
            assert(grid_of(map) =~~= paint(g0, |i: int, j: int| in_box(part.x0 as int, x as int, part.y0 as int, part.yf as int, i, j) && in_ellipse(part, i, j), floor_tile()));
        }
        x = x + 1;
    }
    proof {
        assert(grid_of(map) =~~= paint(g0, ellipse_region(part), floor_tile()));
        lemma_paint_shape(g0, ellipse_region(part), floor_tile());
    }
    if part.xf - part.x0 >= 9 && part.yf - part.y0 >= 9 {
        let (cx, cy) = part.center();
        fill_box(map, cx as i64 - 1, cx as i64 + 1, cy as i64 - 1, cy as i64 + 1, Tile::wall());
    }
}

/// Carves a `w` by `h` rectangle centered in region `part`, and the rectangle from the
/// region's corner to `second` when there is one.
pub fn carve_rectangles(part: Rect, w: i32, h: i32, second: Option<Corner>, map: &mut TileMap)
    requires
        is_grid(grid_of(old(map))),
        region_ok(part, grid_of(old(map))),
        shape_fits(part, RoomShape::Rectangles { w, h, second }),
    ensures
        grid_of(final(map)) == shaped(grid_of(old(map)), part, RoomShape::Rectangles { w, h, second }),
{
    let ghost g0 = grid_of(map);
    let part_width: i32 = part.xf - part.x0 + 1;
    let part_height: i32 = part.yf - part.y0 + 1;
    let x: i32 = part.x0 + (part_width - w) / 2;
    let y: i32 = part.y0 + (part_height - h) / 2;
    let new_room = Rect::new(x, y, x + w, y + h);
    carve_room(new_room, map);
    proof {
        assert(interior(new_room) == first_room(part, w as int, h as int));
        lemma_paint_shape(g0, first_room(part, w as int, h as int), floor_tile());
    }
    match second {
        None => {},
        Some(c) => {
            let second_room_rect = Rect::new(part.x0, part.y0, c.x, c.y);
            carve_room(second_room_rect, map);
            assert(interior(second_room_rect) == second_room(part, c.x as int, c.y as int));
        },
    }
}

/// Carves a room of shape `shape` into region `part`.
pub fn carve_shape(part: Rect, shape: RoomShape, map: &mut TileMap)
    requires
        is_grid(grid_of(old(map))),
        region_ok(part, grid_of(old(map))),
        shape_fits(part, shape),
    ensures
        grid_of(final(map)) == shaped(grid_of(old(map)), part, shape),
{
    match shape {
        RoomShape::Ellipse => create_room_ellipse(part, map),
        RoomShape::Rectangles { w, h, second } => carve_rectangles(part, w, h, second, map),
    }
}

/// Draws a one- or two-rectangle room for region `part` and carves it.
fn create_room_rectangles(part: Rect, map: &mut TileMap, rng: &mut rand::StdRng) -> (shape: RoomShape)
    requires
        is_grid(grid_of(old(map))),
        region_ok(part, grid_of(old(map))),
    ensures
        shape is Rectangles,
        shape_fits(part, shape),
        grid_of(final(map)) == shaped(grid_of(old(map)), part, shape),
{
    let part_width: i32 = part.xf - part.x0 + 1;
    let part_height: i32 = part.yf - part.y0 + 1;
    let two_rects: bool = flip(rng);
    let w: i32 = roll(rng, ROOM_MIN_SIZE, part_width + 1);
    let h: i32 = roll(rng, ROOM_MIN_SIZE, part_height + 1);
    let x: i32 = part.x0 + (part_width - w) / 2;
    let y: i32 = part.y0 + (part_height - h) / 2;
    let second: Option<Corner> = if two_rects {
        let xx: i32 = roll(rng, x + 3, part.xf + 1);
        let yy: i32 = roll(rng, y + 3, part.yf + 1);
        Some(Corner { x: xx, y: yy })
    } else {
        None
    };
    let shape = RoomShape::Rectangles { w, h, second };
    carve_shape(part, shape, map);
    shape
}

/// Draws one of the room shapes for region `part` (an ellipse or rectangles, on a fair coin)
/// and carves it.
pub fn create_room(part: Rect, map: &mut TileMap, rng: &mut rand::StdRng) -> (shape: RoomShape)
    requires
        is_grid(grid_of(old(map))),
        region_ok(part, grid_of(old(map))),
    ensures
        shape_fits(part, shape),
        grid_of(final(map)) == shaped(grid_of(old(map)), part, shape),
{
    let ellipse: bool = flip(rng);
    if ellipse {
        create_room_ellipse(part, map);
        RoomShape::Ellipse
    } else {
        create_room_rectangles(part, map, rng)
    }
}

/// Carving a room of the same shape into the same region a second time changes nothing:
/// the floor set after two carvings is the floor set after one.
pub proof fn lemma_carving_idempotent(g: Grid, p: Rect, s: RoomShape)
    requires
        is_grid(g),
    ensures
        shaped(shaped(g, p, s), p, s) == shaped(g, p, s),
{
    let f = floor_tile();
    match s {
        RoomShape::Ellipse => {
            let e = ellipse_region(p);
            let q = pillar_region(p);
            lemma_paint_shape(g, e, f);
            let g1 = paint(g, e, f);
            if has_pillar(p) {
                lemma_paint_shape(g1, q, wall_tile());
                let g2 = paint(g1, q, wall_tile());
                lemma_paint_shape(g2, e, f);
                let g3 = paint(g2, e, f);
                lemma_paint_shape(g3, q, wall_tile());
                assert(paint(g3, q, wall_tile()) =~~= g2);
            } else {
                lemma_paint_shape(g1, e, f);
                assert(paint(g1, e, f) =~~= g1);
            }
        },
        RoomShape::Rectangles { w, h, second } => {
            let r1 = first_room(p, w as int, h as int);
            lemma_paint_shape(g, r1, f);
            let g1 = paint(g, r1, f);
            match second {
                None => {
                    lemma_paint_shape(g1, r1, f);
                    assert(paint(g1, r1, f) =~~= g1);
                },
                Some(c) => {
                    let r2 = second_room(p, c.x as int, c.y as int);
                    lemma_paint_shape(g1, r2, f);
                    let g2 = paint(g1, r2, f);
                    lemma_paint_shape(g2, r1, f);
                    let g3 = paint(g2, r1, f);
                    lemma_paint_shape(g3, r2, f);
                    assert(paint(g3, r2, f) =~~= g2);
                },
            }
        },
    }
}

/// Carving a room only turns cells into floor, but for the pillar of a large ellipse:
/// every floor cell outside that pillar stays floor, and the grid keeps its size.
pub proof fn lemma_carving_keeps_floor(g: Grid, p: Rect, s: RoomShape)
    requires
        is_grid(g),
    ensures
        is_grid(shaped(g, p, s)),
        width_of(shaped(g, p, s)) == width_of(g),
        height_of(shaped(g, p, s)) == height_of(g),
        forall|x: int, y: int|
            #![trigger is_floor(shaped(g, p, s), x, y)]
            is_floor(g, x, y) && !(s is Ellipse && has_pillar(p) && pillar_region(p)(x, y))
                ==> is_floor(shaped(g, p, s), x, y),
{
    let f = floor_tile();
    match s {
        RoomShape::Ellipse => {
            lemma_paint_shape(g, ellipse_region(p), f);
            if has_pillar(p) {
                lemma_paint_shape(paint(g, ellipse_region(p), f), pillar_region(p), wall_tile());
            }
        },
        RoomShape::Rectangles { w, h, second } => {
            let r1 = first_room(p, w as int, h as int);
            lemma_paint_shape(g, r1, f);
            match second {
                None => {},
                Some(c) => {
                    lemma_paint_shape(paint(g, r1, f), second_room(p, c.x as int, c.y as int), f);
                },
            }
        },
    }
}

/// Carving a room into region `p` leaves every cell outside `p` as it was.
pub proof fn lemma_carving_is_local(g: Grid, p: Rect, s: RoomShape)
    requires
        is_grid(g),
        region_ok(p, g),
        shape_fits(p, s),
    ensures
        forall|x: int, y: int|
            in_grid(g, x, y) && !in_box(p.x0 as int, p.xf as int, p.y0 as int, p.yf as int, x, y)
                ==> #[trigger] shaped(g, p, s)[x][y] == g[x][y],
{
    let f = floor_tile();
    match s {
        RoomShape::Ellipse => {
            lemma_paint_shape(g, ellipse_region(p), f);
            if has_pillar(p) {
                lemma_paint_shape(paint(g, ellipse_region(p), f), pillar_region(p), wall_tile());
            }
        },
        RoomShape::Rectangles { w, h, second } => {
            let r1 = first_room(p, w as int, h as int);
            lemma_paint_shape(g, r1, f);
            match second {
                None => {},
                Some(c) => {
                    lemma_paint_shape(paint(g, r1, f), second_room(p, c.x as int, c.y as int), f);
                },
            }
        },
    }
}

proof fn lemma_center_in_ellipse(p: Rect)
    requires
        p.xf - p.x0 >= ROOM_MIN_SIZE - 1,
        p.yf - p.y0 >= ROOM_MIN_SIZE - 1,
        p.x0 >= 0,
        p.y0 >= 0,
    ensures
        in_ellipse(p, p.center_spec().0, p.center_spec().1),
{
    let a = 10 * (p.xf - p.x0) - 2;
    let b = 10 * (p.yf - p.y0) - 2;
    let dx = 20 * p.center_spec().0 - 10 * (p.x0 + p.xf);
    let dy = 20 * p.center_spec().1 - 10 * (p.y0 + p.yf);
    assert(dx == 0 || dx == -10);
    assert(dy == 0 || dy == -10);
    let u = a * a;
    let v = b * b;
    assert(u >= 1444) by (nonlinear_arith)
        requires
            a >= 38,
            u == a * a,
    ;
    assert(v >= 1444) by (nonlinear_arith)
        requires
            b >= 38,
            v == b * b,
    ;
    assert(0 <= dx * dx <= 100 && 0 <= dy * dy <= 100);
    assert((dx * dx) * v + (dy * dy) * u <= u * v) by (nonlinear_arith)
        requires
            0 <= dx * dx <= 100,
            0 <= dy * dy <= 100,
            u >= 1444,
            v >= 1444,
    ;
}

/// After carving a room into region `p`, the region's center is floor, unless the room
/// is an ellipse large enough to have a pillar there.
pub proof fn lemma_center_is_floor(g: Grid, p: Rect, s: RoomShape)
    requires
        is_grid(g),
        region_ok(p, g),
        shape_fits(p, s),
        !(s is Ellipse && has_pillar(p)),
    ensures
        is_floor(shaped(g, p, s), p.center_spec().0, p.center_spec().1),
{
    let f = floor_tile();
    let c = p.center_spec();
    match s {
        RoomShape::Ellipse => {
            lemma_center_in_ellipse(p);
            lemma_paint_shape(g, ellipse_region(p), f);
        },
        RoomShape::Rectangles { w, h, second } => {
            let r1 = first_room(p, w as int, h as int);
            lemma_paint_shape(g, r1, f);
            assert(r1(c.0, c.1));
            match second {
                None => {},
                Some(k) => {
                    lemma_paint_shape(paint(g, r1, f), second_room(p, k.x as int, k.y as int), f);
                },
            }
        },
    }
}

} // verus!
