use crate::carve::rect_in_grid;
use crate::dice::roll;
use crate::map::{grid_of, in_grid, is_grid, Grid, TileMap};
use crate::objects::Object;
use crate::partition::contains;
use crate::rect::Rect;
use crate::tables::{
    generate_floor_item, generate_npc, loot_level_supported, loot_object, loot_on_level, loot_rows,
    npc_level_supported, npc_object, npc_on_level, npc_rows,
};
use crate::transition::{from_map_level, step_value, Transition};
use vstd::prelude::*;

verus! {

/// Some object that blocks stands at `(x, y)`.
pub open spec fn occupied(objects: Seq<Object>, x: int, y: int) -> bool {
    exists|i: int| 0 <= i < objects.len() && (#[trigger] objects[i]).blocks && objects[i].x == x && objects[i].y == y
}

/// The tile at `(x, y)` blocks, or an object that blocks stands there.
pub open spec fn blocked_at(g: Grid, objects: Seq<Object>, x: int, y: int) -> bool {
    g[x][y].blocked || occupied(objects, x, y)
}

/// Whether `(x, y)` is blocked, by its tile or by an object.
pub fn is_blocked(x: i32, y: i32, map: &TileMap, objects: &[Object]) -> (r: bool)
    requires
        is_grid(grid_of(map)),
        in_grid(grid_of(map), x as int, y as int),
    ensures
        r == blocked_at(grid_of(map), objects@, x as int, y as int),
{
    assert(grid_of(map).len() == map@.len());
    assert(map@[x as int]@.len() == grid_of(map)[x as int].len());
    if map[x as usize][y as usize].blocked {
        return true;
    }
    let mut i: usize = 0;
    while i < objects.len()
        invariant
            i <= objects@.len(),
            forall|j: int| 0 <= j < i ==> !((#[trigger] objects@[j]).blocks && objects@[j].x == x && objects@[j].y == y),
        decreases objects@.len() - i,
    {
        let o = &objects[i];
        if o.blocks && o.x == x && o.y == y {
            assert(objects@[i as int].blocks);
            return true;
        }
        i = i + 1;
    }
    false
}

/// `o`, apart from its position, is a fresh NPC or item of a kind that appears on `level`.
pub open spec fn spawned_kind(level: int, o: Object) -> bool {
    (exists|i: int| 0 <= i < npc_rows().len() && npc_on_level(i, level)
        && npc_object(npc_rows()[i], Object { x: -1i32, y: -1i32, ..o }))
    || (exists|i: int| 0 <= i < loot_rows().len() && loot_on_level(i, level)
        && loot_object(loot_rows()[i], Object { x: -1i32, y: -1i32, ..o }))
}

/// `o` was placed by populating region `part` of grid `g` on dungeon `level`: it stands
/// on a cell of the region whose tile does not block, and it is an NPC or an item of a
/// kind that appears on that level.
pub open spec fn placed_in(part: Rect, g: Grid, level: int, o: Object) -> bool {
    &&& contains(part, o.x as int, o.y as int)
    &&& !g[o.x as int][o.y as int].blocked
    &&& spawned_kind(level, o)
}

/// The objects that populating added to `before`, giving `after`: `before` is kept as a
/// prefix; each new object was placed in `part`, on a cell where no object that blocks
/// stood before it; and no two new objects share a cell.
pub open spec fn populated(part: Rect, g: Grid, level: int, before: Seq<Object>, after: Seq<Object>) -> bool {
    &&& after.len() >= before.len()
    &&& after.subrange(0, before.len() as int) == before
    &&& forall|k: int| before.len() <= k < after.len() ==> placed_in(part, g, level, #[trigger] after[k])
    &&& forall|k: int|
        before.len() <= k < after.len() ==> !occupied(after.subrange(0, k), (#[trigger] after[k]).x as int, after[k].y as int)
    &&& forall|k: int, l: int|
        before.len() <= k < l < after.len() ==> (#[trigger] after[k]).x != (#[trigger] after[l]).x || after[k].y != after[l].y
}

/// Per-mille chance that an NPC is placed on a free cell of dungeon `level`.
pub open spec fn npc_chance(level: u32) -> u32 {
    step_value(seq![Transition { level: 0, value: 10 }, Transition { level: 20, value: 64 }], level)
}

/// Per-mille chance that an item is placed on a free cell of dungeon `level`.
pub open spec fn item_chance(level: u32) -> u32 {
    step_value(
        seq![
            Transition { level: 0, value: 10 },
            Transition { level: 10, value: 32 },
            Transition { level: 11, value: 10 },
            Transition { level: 20, value: 64 },
        ],
        level,
    )
}

/// The objects after the NPC step on cell `(x, y)`: the NPC is added there when its roll is
/// below the level's chance and the cell is free.
pub open spec fn after_npc(g: Grid, objects: Seq<Object>, level: u32, x: i32, y: i32, npc_roll: i32, npc: Option<Object>) -> Seq<Object> {
    if npc_roll < npc_chance(level) && !blocked_at(g, objects, x as int, y as int) {
        objects.push(Object { x, y, ..npc->0 })
    } else {
        objects
    }
}

/// The objects after populating cell `(x, y)`: the NPC step, then the item is added there
/// when its roll is below the level's chance and the cell is still free.
pub open spec fn after_cell(
    g: Grid,
    objects: Seq<Object>,
    level: u32,
    x: i32,
    y: i32,
    npc_roll: i32,
    npc: Option<Object>,
    item_roll: i32,
    item: Option<Object>,
) -> Seq<Object> {
    let o1 = after_npc(g, objects, level, x, y, npc_roll, npc);
    if item_roll < item_chance(level) && !blocked_at(g, o1, x as int, y as int) {
        o1.push(Object { x, y, ..item->0 })
    } else {
        o1
    }
}

fn chances(level: u32) -> (r: (u32, u32))
    ensures
        r.0 == npc_chance(level),
        r.1 == item_chance(level),
{
    let npc_table: [Transition; 2] = [Transition { level: 0, value: 10 }, Transition { level: 20, value: 64 }];
    let item_table: [Transition; 4] = [
        Transition { level: 0, value: 10 },
        Transition { level: 10, value: 32 },
        Transition { level: 11, value: 10 },
        Transition { level: 20, value: 64 },
    ];
    let npc_chance: u32 = from_map_level(&npc_table, level);
    let item_chance: u32 = from_map_level(&item_table, level);
    assert(npc_table@ =~= seq![Transition { level: 0, value: 10 }, Transition { level: 20, value: 64 }]);
    assert(item_table@ =~= seq![
        Transition { level: 0, value: 10 },
        Transition { level: 10, value: 32 },
        Transition { level: 11, value: 10 },
        Transition { level: 20, value: 64 },
    ]);
    (npc_chance, item_chance)
}

/// Populates cell `(x, y)` given its two rolls and the freshly generated NPC and item:
/// the NPC is added at the cell when its roll is below the level's chance and the cell is
/// free; then the item is added when its roll is below the level's chance and the cell is
/// still free. Each of them must be at hand when it is to be placed.
pub fn populate_cell(
    x: i32,
    y: i32,
    map: &TileMap,
    objects: &mut Vec<Object>,
    level: u32,
    npc_roll: i32,
    npc: Option<Object>,
    item_roll: i32,
    item: Option<Object>,
)
    requires
        is_grid(grid_of(map)),
        in_grid(grid_of(map), x as int, y as int),
        npc_roll < npc_chance(level) && !blocked_at(grid_of(map), old(objects)@, x as int, y as int) ==> npc is Some,
        item_roll < item_chance(level) && !blocked_at(
            grid_of(map),
            after_npc(grid_of(map), old(objects)@, level, x, y, npc_roll, npc),
            x as int,
            y as int,
        ) ==> item is Some,
    ensures
        final(objects)@ == after_cell(grid_of(map), old(objects)@, level, x, y, npc_roll, npc, item_roll, item),
{
    let (npc_chance, item_chance) = chances(level);
    if (npc_roll as i64) < (npc_chance as i64) && !is_blocked(x, y, map, objects.as_slice()) {
        match npc {
            Some(o) => {
                let mut o = o;
                o.x = x;
                o.y = y;
                objects.push(o);
            },
            None => {},
        }
    }
    if (item_roll as i64) < (item_chance as i64) && !is_blocked(x, y, map, objects.as_slice()) {
        match item {
            Some(o) => {
                let mut o = o;
                o.x = x;
                o.y = y;
                objects.push(o);
            },
            None => {},
        }
    }
}

/// Visits every cell of region `part`, column by column, and for each one rolls a per-mille
/// chance of an NPC and one of an item, generating each only when it is to be placed, and
/// populates the cell as `populate_cell` says.
pub fn place_objects(part: Rect, map: &TileMap, objects: &mut Vec<Object>, level: u32, rng: &mut rand::StdRng)
    requires
        is_grid(grid_of(map)),
        rect_in_grid(part, grid_of(map)),
        npc_level_supported(level as int),
        loot_level_supported(level as int),
    ensures
        populated(part, grid_of(map), level as int, old(objects)@, final(objects)@),
{
    let ghost g = grid_of(map);
    let ghost before = objects@;
    let (npc_chance, item_chance) = chances(level);
    assert(objects@.subrange(0, before.len() as int) =~= before);
    let mut x: i64 = part.x0 as i64;
    while x <= part.xf as i64
        invariant
            part.x0 <= x <= part.xf + 1,
            is_grid(g),
            g == grid_of(map),
            rect_in_grid(part, g),
            npc_chance == crate::populate::npc_chance(level),
            item_chance == crate::populate::item_chance(level),
            npc_level_supported(level as int),
            loot_level_supported(level as int),
            populated(part, g, level as int, before, objects@),
            forall|k: int| before.len() <= k < objects@.len() ==> (#[trigger] objects@[k]).x < x,
        decreases part.xf + 1 - x,
    {
        let mut y: i64 = part.y0 as i64;
        while y <= part.yf as i64
            invariant
                part.y0 <= y <= part.yf + 1,
                part.x0 <= x <= part.xf,
                is_grid(g),
                g == grid_of(map),
                rect_in_grid(part, g),
                npc_chance == crate::populate::npc_chance(level),
                item_chance == crate::populate::item_chance(level),
                npc_level_supported(level as int),
                loot_level_supported(level as int),
                populated(part, g, level as int, before, objects@),
                forall|k: int|
                    before.len() <= k < objects@.len() ==> (#[trigger] objects@[k]).x < x || (objects@[k].x == x
                        && objects@[k].y < y),
            decreases part.yf + 1 - y,
        {
            let cx: i32 = x as i32;
            let cy: i32 = y as i32;
            let ghost prev = objects@;
            let npc_roll: i32 = roll(rng, 0, 1000);
            let wants_npc: bool = (npc_roll as i64) < (npc_chance as i64) && !is_blocked(cx, cy, map, objects.as_slice());
            let npc: Option<Object> = if wants_npc {
                Some(generate_npc(level as i32, rng))
            } else {
                None
            };
            let item_roll: i32 = roll(rng, 0, 1000);
            let wants_item: bool = (item_roll as i64) < (item_chance as i64) && !wants_npc && !is_blocked(
                cx,
                cy,
                map,
                objects.as_slice(),
            );
            let item: Option<Object> = if wants_item {
                Some(generate_floor_item(level as i32, rng))
            } else {
                None
            };
            let ghost o1 = after_npc(g, prev, level, cx, cy, npc_roll, npc);
            proof {
                if wants_npc {
                    let n = npc->0;
                    assert(n.blocks);
                    assert(o1[prev.len() as int].blocks);
                    assert(occupied(o1, cx as int, cy as int));
                } else {
                    assert(o1 == prev);
                }
            }
            populate_cell(cx, cy, map, objects, level, npc_roll, npc, item_roll, item);
            proof {
                let post = objects@;
                assert(post.subrange(0, prev.len() as int) =~= prev) by {
                    if post.len() > o1.len() {
                        assert(post.subrange(0, o1.len() as int) =~= o1);
                    }
                    if o1.len() > prev.len() {
                        assert(o1.subrange(0, prev.len() as int) =~= prev);
                    }
                }
                assert(post.len() <= prev.len() + 1);
                assert(post.subrange(0, before.len() as int) =~= prev.subrange(0, before.len() as int));
                if post.len() > prev.len() {
                    let k = prev.len() as int;
                    assert(post.subrange(0, k) =~= prev);
                    assert(post[k].x == cx && post[k].y == cy);
                    assert(!blocked_at(g, prev, cx as int, cy as int));
                    assert(placed_in(part, g, level as int, post[k]));
                }
                assert forall|k: int| before.len() <= k < post.len() implies placed_in(part, g, level as int, #[trigger] post[k]) by {
                    if k < prev.len() {
                        assert(post[k] == prev[k]);
                    }
                }
                assert forall|k: int|
                    before.len() <= k < post.len() implies !occupied(post.subrange(0, k), (#[trigger] post[k]).x as int, post[k].y as int) by {
                    if k < prev.len() {
                        assert(post.subrange(0, k) =~= prev.subrange(0, k));
                    }
                }
                assert forall|k: int, l: int|
                    before.len() <= k < l < post.len() implies (#[trigger] post[k]).x != (#[trigger] post[l]).x || post[k].y != post[l].y by {
                    if l < prev.len() {
                        assert(post[k] == prev[k] && post[l] == prev[l]);
                    } else {
                        assert(post[k] == prev[k]);
                    }
                }
                assert forall|k: int| before.len() <= k < post.len() implies (#[trigger] post[k]).x < x || (post[k].x == x
                    && post[k].y < y + 1) by {
                    if k < prev.len() {
                        assert(post[k] == prev[k]);
                    }
                }
            }
            y = y + 1;
        }
        x = x + 1;
    }
}

} // verus!
