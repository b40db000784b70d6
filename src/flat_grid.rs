use crate::dice::roll;
use crate::rect::Rect;
use vstd::prelude::*;

verus! {

/// A cell of the flat grid: 80 columns by 50 rows, stored row after row.
#[derive(Clone, Copy, Debug, PartialEq, Eq, Structural)]
pub enum TileType {
    Wall,
    Floor,
}

pub open spec fn idx_of(x: int, y: int) -> int {
    y * 80 + x
}

/// The position of `(x, y)` in a grid stored row after row, 80 cells to a row.
pub fn xy_idx(x: i32, y: i32) -> (r: usize)
    requires
        0 <= x,
        0 <= y,
        idx_of(x as int, y as int) <= usize::MAX,
    ensures
        r == idx_of(x as int, y as int),
{
    (y as usize * 80) + x as usize
}

pub open spec fn on_border(i: int) -> bool {
    i % 80 == 0 || i % 80 == 79 || i / 80 == 0 || i / 80 == 49
}

/// Walls on the border of the 80 by 50 grid, floor inside.
pub open spec fn bordered_floor() -> Seq<TileType> {
    Seq::new(4000, |i: int| if on_border(i) { TileType::Wall } else { TileType::Floor })
}

/// A draw of a random wall: inside the border.
pub open spec fn inner_cell(d: (i32, i32)) -> bool {
    1 <= d.0 < 80 && 1 <= d.1 < 50
}

/// `base` with a wall at every drawn cell but the middle cell `(40, 25)`.
pub open spec fn splat(base: Seq<TileType>, draws: Seq<(i32, i32)>) -> Seq<TileType>
    decreases draws.len(),
{
    if draws.len() == 0 {
        base
    } else {
        let d = draws.last();
        let prev = splat(base, draws.drop_last());
        if idx_of(d.0 as int, d.1 as int) != idx_of(40, 25) {
            prev.update(idx_of(d.0 as int, d.1 as int), TileType::Wall)
        } else {
            prev
        }
    }
}

/// Puts a wall at every drawn cell, keeping the middle cell `(40, 25)` floor.
pub fn splat_walls(map: &mut Vec<TileType>, draws: &Vec<(i32, i32)>)
    requires
        old(map)@.len() == 4000,
        forall|k: int| 0 <= k < draws@.len() ==> inner_cell(#[trigger] draws@[k]),
    ensures
        final(map)@ == splat(old(map)@, draws@),
{
    let ghost m0 = map@;
    let mut n: usize = 0;
    assert(draws@.subrange(0, 0) =~= Seq::<(i32, i32)>::empty());
    while n < draws.len()
        invariant
            n <= draws@.len(),
            forall|k: int| 0 <= k < draws@.len() ==> inner_cell(#[trigger] draws@[k]),
            map@ == splat(m0, draws@.subrange(0, n as int)),
            map@.len() == 4000,
        decreases draws@.len() - n,
    {
        let (x, y) = draws[n];
        assert(inner_cell(draws@[n as int]));
        assert(draws@.subrange(0, n + 1).drop_last() =~= draws@.subrange(0, n as int));
        let idx = xy_idx(x, y);
        if idx != xy_idx(40, 25) {
            map.set(idx, TileType::Wall);
        }
        n = n + 1;
    }
    assert(draws@.subrange(0, n as int) =~= draws@);
}

/// A test grid: walls on the border, walls at 400 random cells inside, and the middle
/// cell `(40, 25)` kept floor.
pub fn new_map_test(rng: &mut rand::StdRng) -> (map: Vec<TileType>)
    ensures
        exists|draws: Seq<(i32, i32)>|
            draws.len() == 400 && (forall|k: int| 0 <= k < 400 ==> inner_cell(#[trigger] draws[k])) && map@ == splat(
                bordered_floor(),
                draws,
            ),
{
    let mut map: Vec<TileType> = Vec::new();
    let mut i: usize = 0;
    while i < 4000
        invariant
            i <= 4000,
            map@.len() == i,
            forall|k: int| 0 <= k < i ==> #[trigger] map@[k] == TileType::Floor,
        decreases 4000 - i,
    {
        map.push(TileType::Floor);
        i = i + 1;
    }
    let mut x: i32 = 0;
    while x < 80
        invariant
            0 <= x <= 80,
            map@.len() == 4000,
            forall|k: int|
                0 <= k < 4000 ==> #[trigger] map@[k] == if (k / 80 == 0 || k / 80 == 49) && k % 80 < x {
                    TileType::Wall
                } else {
                    TileType::Floor
                },
        decreases 80 - x,
    {
        let top = xy_idx(x, 0);
        let bottom = xy_idx(x, 49);
        map.set(top, TileType::Wall);
        map.set(bottom, TileType::Wall);
        x = x + 1;
    }
    let mut y: i32 = 0;
    while y < 50
        invariant
            0 <= y <= 50,
            map@.len() == 4000,
            forall|k: int|
                0 <= k < 4000 ==> #[trigger] map@[k] == if (k / 80 == 0 || k / 80 == 49) || ((k % 80 == 0 || k % 80 == 79)
                    && k / 80 < y) {
                    TileType::Wall
                } else {
                    TileType::Floor
                },
        decreases 50 - y,
    {
        let left = xy_idx(0, y);
        let right = xy_idx(79, y);
        map.set(left, TileType::Wall);
        map.set(right, TileType::Wall);
        y = y + 1;
    }
    assert(map@ =~= bordered_floor());
    let mut draws: Vec<(i32, i32)> = Vec::new();
    let mut n: i32 = 0;
    while n < 400
        invariant
            0 <= n <= 400,
            draws@.len() == n,
            forall|k: int| 0 <= k < draws@.len() ==> inner_cell(#[trigger] draws@[k]),
        decreases 400 - n,
    {
        let x = roll(rng, 1, 80);
        let y = roll(rng, 1, 50);
        draws.push((x, y));
        n = n + 1;
    }
    splat_walls(&mut map, &draws);
    map
}

/// Makes floor of the cells of `room` past its first corner, up to and including its second.
pub fn apply_room_to_map(room: &Rect, map: &mut Vec<TileType>)
    requires
        0 <= room.x0,
        0 <= room.y0,
        room.xf < 80,
        idx_of(room.xf as int, room.yf as int) < old(map)@.len(),
    ensures
        final(map)@.len() == old(map)@.len(),
        forall|i: int|
            0 <= i < old(map)@.len() ==> #[trigger] final(map)@[i] == if room.x0 < i % 80 <= room.xf && room.y0 < i / 80 <= room.yf {
                TileType::Floor
            } else {
                old(map)@[i]
            },
{
    let ghost m0 = map@;
    let len: usize = map.len();
    let mut y: i64 = room.y0 as i64 + 1;
    while y <= room.yf as i64
        invariant
            room.y0 + 1 <= y <= room.yf + 1 || (y == room.y0 + 1 && room.y0 >= room.yf),
            0 <= room.x0,
            0 <= room.y0,
            room.xf < 80,
            idx_of(room.xf as int, room.yf as int) < m0.len(),
            m0.len() == len,
            map@.len() == m0.len(),
            forall|i: int|
                0 <= i < m0.len() ==> #[trigger] map@[i] == if room.x0 < i % 80 <= room.xf && room.y0 < i / 80 < y {
                    TileType::Floor
                } else {
                    m0[i]
                },
        decreases room.yf + 1 - y,
    {
        let mut x: i64 = room.x0 as i64 + 1;
        while x <= room.xf as i64
            invariant
                room.x0 + 1 <= x <= room.xf + 1 || (x == room.x0 + 1 && room.x0 >= room.xf),
                room.y0 + 1 <= y <= room.yf,
                0 <= room.x0,
                0 <= room.y0,
                room.xf < 80,
                idx_of(room.xf as int, room.yf as int) < m0.len(),
                m0.len() == len,
                map@.len() == m0.len(),
                forall|i: int|
                    0 <= i < m0.len() ==> #[trigger] map@[i] == if (room.x0 < i % 80 <= room.xf && room.y0 < i / 80 < y)
                        || (i / 80 == y && room.x0 < i % 80 < x) {
                        TileType::Floor
                    } else {
                        m0[i]
                    },
            decreases room.xf + 1 - x,
        {
            let idx = xy_idx(x as i32, y as i32);
            map.set(idx, TileType::Floor);
            x = x + 1;
        }
        y = y + 1;
    }
}

pub open spec fn in_flat_grid(i: int) -> bool {
    0 < i < 4000
}

/// Makes floor of row `y` from `x1` to `x2`, both included, in either order, skipping
/// cells outside the 80 by 50 grid and the corner cell 0.
pub fn apply_horizontal_tunnel(map: &mut Vec<TileType>, x1: i32, x2: i32, y: i32)
    requires
        0 <= x1 < 80,
        0 <= x2 < 80,
        0 <= y,
        idx_of(79, y as int) <= usize::MAX,
        old(map)@.len() == 4000,
    ensures
        final(map)@.len() == 4000,
        forall|i: int|
            0 <= i < 4000 ==> #[trigger] final(map)@[i] == if in_flat_grid(i) && i / 80 == y && (x1 <= i % 80 <= x2 || x2 <= i % 80 <= x1) {
                TileType::Floor
            } else {
                old(map)@[i]
            },
{
    let ghost m0 = map@;
    let lo: i32 = if x1 <= x2 { x1 } else { x2 };
    let hi: i32 = if x1 <= x2 { x2 } else { x1 };
    let mut x: i32 = lo;
    while x <= hi
        invariant
            lo <= x <= hi + 1,
            lo == (if x1 <= x2 { x1 } else { x2 }),
            hi == (if x1 <= x2 { x2 } else { x1 }),
            0 <= lo,
            hi < 80,
            0 <= y,
            idx_of(79, y as int) <= usize::MAX,
            map@.len() == 4000,
            forall|i: int|
                0 <= i < 4000 ==> #[trigger] map@[i] == if in_flat_grid(i) && i / 80 == y && lo <= i % 80 < x {
                    TileType::Floor
                } else {
                    m0[i]
                },
        decreases hi + 1 - x,
    {
        let idx = xy_idx(x, y);
        if idx > 0 && idx < 80 * 50 {
            map.set(idx, TileType::Floor);
        }
        x = x + 1;
    }
}

/// Makes floor of column `x` from `y1` to `y2`, both included, in either order, skipping
/// cells outside the 80 by 50 grid and the corner cell 0.
pub fn apply_vertical_tunnel(map: &mut Vec<TileType>, y1: i32, y2: i32, x: i32)
    requires
        0 <= y1,
        0 <= y2,
        0 <= x < 80,
        idx_of(79, y1 as int) <= usize::MAX,
        idx_of(79, y2 as int) <= usize::MAX,
        old(map)@.len() == 4000,
    ensures
        final(map)@.len() == 4000,
        forall|i: int|
            0 <= i < 4000 ==> #[trigger] final(map)@[i] == if in_flat_grid(i) && i % 80 == x && (y1 <= i / 80 <= y2 || y2 <= i / 80 <= y1) {
                TileType::Floor
            } else {
                old(map)@[i]
            },
{
    let ghost m0 = map@;
    let lo: i32 = if y1 <= y2 { y1 } else { y2 };
    let hi: i32 = if y1 <= y2 { y2 } else { y1 };
    let mut y: i64 = lo as i64;
    while y <= hi as i64
        invariant
            lo <= y <= hi + 1,
            lo == (if y1 <= y2 { y1 } else { y2 }),
            hi == (if y1 <= y2 { y2 } else { y1 }),
            0 <= lo,
            0 <= x < 80,
            idx_of(79, hi as int) <= usize::MAX,
            map@.len() == 4000,
            forall|i: int|
                0 <= i < 4000 ==> #[trigger] map@[i] == if in_flat_grid(i) && i % 80 == x && lo <= i / 80 < y {
                    TileType::Floor
                } else {
                    m0[i]
                },
        decreases hi + 1 - y,
    {
        let idx = xy_idx(x, y as i32);
        if idx > 0 && idx < 80 * 50 {
            map.set(idx, TileType::Floor);
        }
        y = y + 1;
    }
}

/// The cells of the two rooms and the corridor of the demonstration grid.
pub open spec fn demo_floor(i: int) -> bool {
    (20 < i % 80 <= 30 && 15 < i / 80 <= 30) || (35 < i % 80 <= 45 && 15 < i / 80 <= 30) || (in_flat_grid(i) && i / 80
        == 23 && 25 <= i % 80 <= 40)
}

/// A demonstration grid: two rooms side by side, joined by a corridor along row 23.
pub fn new_map_rooms_and_corridors() -> (map: Vec<TileType>)
    ensures
        map@.len() == 4000,
        forall|i: int| 0 <= i < 4000 ==> #[trigger] map@[i] == if demo_floor(i) { TileType::Floor } else { TileType::Wall },
{
    let mut map: Vec<TileType> = Vec::new();
    let mut i: usize = 0;
    while i < 4000
        invariant
            i <= 4000,
            map@.len() == i,
            forall|k: int| 0 <= k < i ==> #[trigger] map@[k] == TileType::Wall,
        decreases 4000 - i,
    {
        map.push(TileType::Wall);
        i = i + 1;
    }
    let room1 = Rect::with_size(20, 15, 10, 15);
    let room2 = Rect::with_size(35, 15, 10, 15);
    apply_room_to_map(&room1, &mut map);
    apply_room_to_map(&room2, &mut map);
    apply_horizontal_tunnel(&mut map, 25, 40, 23);
    map
}

pub open spec fn glyph(t: TileType) -> char {
    match t {
        TileType::Floor => '.',
        TileType::Wall => '#',
    }
}

/// What drawing the grid puts on the screen: for the cell at index `i`, its column
/// `i % 80`, its row `i / 80` and its glyph, `.` for floor and `#` for wall.
pub fn draw_map(map: &[TileType]) -> (cells: Vec<(i32, i32, char)>)
    requires
        map@.len() <= i32::MAX,
    ensures
        cells@.len() == map@.len(),
        forall|i: int| 0 <= i < map@.len() ==> #[trigger] cells@[i] == ((i % 80) as i32, (i / 80) as i32, glyph(map@[i])),
{
    let mut cells: Vec<(i32, i32, char)> = Vec::new();
    let mut y: i32 = 0;
    let mut x: i32 = 0;
    let mut i: usize = 0;
    while i < map.len()
        invariant
            i <= map@.len(),
            map@.len() <= i32::MAX,
            cells@.len() == i,
            x == i % 80,
            y == i / 80,
            forall|k: int| 0 <= k < i ==> #[trigger] cells@[k] == ((k % 80) as i32, (k / 80) as i32, glyph(map@[k])),
        decreases map@.len() - i,
    {
        let c: char = match map[i] {
            TileType::Floor => '.',
            TileType::Wall => '#',
        };
        cells.push((x, y, c));
        x += 1;
        if x > 79 {
            x = 0;
            y += 1;
        }
        i = i + 1;
    }
    cells
}

} // verus!
