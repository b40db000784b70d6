use crate::carve::{
    carve_tunnel, corridor, create_room, has_pillar, lemma_carving_is_local, lemma_carving_keeps_floor, lemma_center_is_floor,
    rect_in_grid, region_ok, shape_fits, shaped, RoomShape, MAX_SPAN, ROOM_MIN_SIZE,
};
use crate::dice::roll;
use crate::map::{
    floor_tile, grid_of, height_of, in_box, in_grid, is_floor, is_grid, lemma_paint_shape, new_walls, paint, walls,
    width_of, Grid, TileMap,
};
use crate::objects::{Color, Object};
use crate::partition::{binary_space_partition, contains, disjoint, sized, tiles, within, ITERATIONS};
use crate::populate::{place_objects, populated, spawned_kind};
use crate::reach::{
    connected, keeps_floor, lemma_connected_kept, lemma_connected_trans, lemma_corridor_connects, lemma_keeps_floor_refl,
    lemma_keeps_floor_trans, lemma_paint_floor_keeps_floor,
};
use crate::rect::Rect;
use crate::tables::{loot_level_supported, npc_level_supported};
use vstd::prelude::*;

verus! {

/// Width of a dungeon level, in cells.
pub const MAP_WIDTH: i32 = 80;

/// Height of a dungeon level, in cells.
pub const MAP_HEIGHT: i32 = 43;

/// Number of dungeon levels of a game.
pub const NUM_LVLS: usize = 21;

/// The player is always the first object of the first level.
pub const PLAYER: usize = 0;

/// A corridor of a level: from the center of region `.0` to that of region `.1`,
/// horizontally first when `.2` holds.
pub type Link = (int, int, bool);

/// `g` with the corridors of `links` carved, in order.
pub open spec fn with_corridors(g: Grid, parts: Seq<Rect>, links: Seq<Link>) -> Grid
    decreases links.len(),
{
    if links.len() == 0 {
        g
    } else {
        let l = links.last();
        paint(
            with_corridors(g, parts, links.drop_last()),
            corridor(parts[l.0].center_spec(), parts[l.1].center_spec(), l.2),
            floor_tile(),
        )
    }
}

/// `g` with a room of shape `shapes[i]` carved into region `parts[i]`, in order.
pub open spec fn with_rooms(g: Grid, parts: Seq<Rect>, shapes: Seq<RoomShape>) -> Grid
    decreases shapes.len(),
{
    if shapes.len() == 0 {
        g
    } else {
        shaped(with_rooms(g, parts, shapes.drop_last()), parts[shapes.len() - 1], shapes.last())
    }
}

/// Region `i` is linked to region `i - 1` for every `i >= 1`; when there are more than six
/// regions, one more corridor joins a region of the first third to one of the last third.
pub open spec fn links_ok(n: int, links: Seq<Link>) -> bool {
    &&& forall|i: int| 0 <= i < n - 1 ==> (#[trigger] links[i]).0 == i && links[i].1 == i + 1
    &&& if n > 6 {
        &&& links.len() == n
        &&& 1 <= links[n - 1].0 < n / 3
        &&& 2 * n / 3 <= links[n - 1].1 < n
    } else {
        links.len() == n - 1
    }
}

/// A layout of a `width` by `height` level: the regions tile the interior less a
/// one-cell border, the corridors follow `links_ok`, and each region has a room
/// shape whose draws are in range.
pub open spec fn level_plan(width: int, height: int, parts: Seq<Rect>, links: Seq<Link>, shapes: Seq<RoomShape>) -> bool {
    &&& parts.len() >= 1
    &&& tiles(parts, Rect { x0: 0, y0: 0, xf: (width - 2) as i32, yf: (height - 2) as i32 })
    &&& forall|i: int| 0 <= i < parts.len() ==> sized(#[trigger] parts[i])
    &&& links_ok(parts.len() as int, links)
    &&& shapes.len() == parts.len()
    &&& forall|i: int| 0 <= i < parts.len() ==> shape_fits(#[trigger] parts[i], shapes[i])
}

/// The grid of a level laid out by the plan: walls, then the corridors, then the rooms.
pub open spec fn level_grid(width: int, height: int, parts: Seq<Rect>, links: Seq<Link>, shapes: Seq<RoomShape>) -> Grid {
    with_rooms(with_corridors(walls(width, height), parts, links), parts, shapes)
}

/// The object stands inside a `width` by `height` grid.
pub open spec fn pos_in(o: Object, width: int, height: int) -> bool {
    0 <= o.x < width && 0 <= o.y < height
}

/// A stairs marker drawn as `chr` at `at`: visible from afar, not blocking.
pub open spec fn stairs(o: Object, chr: char, at: (i32, i32)) -> bool {
    o.chr == chr && o.x == at.0 && o.y == at.1 && !o.blocks && o.always_visible && o.color == Color::White
}

/// What generating a level did to the level's objects: on level 0 the player moved to
/// `down`; on another level a down-stairs marker was added at `down`; then NPCs and items
/// were added inside the grid, and the last object is the up-stairs marker at `up`.
pub open spec fn objects_placed(
    width: int,
    height: int,
    level: int,
    before: Seq<Object>,
    after: Seq<Object>,
    up: (i32, i32),
    down: (i32, i32),
) -> bool {
    &&& after.len() > before.len()
    &&& forall|k: int| 0 <= k < before.len() && !(level == 0 && k == PLAYER) ==> #[trigger] after[k] == before[k]
    &&& level == 0 ==> after[PLAYER as int] == (Object { x: down.0, y: down.1, ..before[PLAYER as int] })
    &&& level != 0 ==> stairs(after[before.len() as int], '<', down) && after[before.len() as int].name@ == "down-stairs"@
    &&& forall|k: int| before.len() <= k < after.len() ==> pos_in(#[trigger] after[k], width, height)
    &&& stairs(after.last(), '>', up) && after.last().name@ == "up-stairs"@
}

/// The result `r` of generating a `width` by `height` level, which turned the level's
/// objects from `before` into `after`: a grid of that size laid out by some plan, with the
/// down-stairs position at the first region's center, the up-stairs position at the last
/// region's center, the objects placed as `objects_placed` says, and every object added
/// between the two stairs markers a fresh NPC or item of the level, standing on a floor
/// cell of a region after the first.
pub open spec fn level_built(
    width: int,
    height: int,
    level: int,
    before: Seq<Object>,
    after: Seq<Object>,
    r: (TileMap, (i32, i32), (i32, i32)),
) -> bool {
    &&& is_grid(grid_of(&r.0))
    &&& width_of(grid_of(&r.0)) == width
    &&& height_of(grid_of(&r.0)) == height
    &&& in_grid(grid_of(&r.0), r.1.0 as int, r.1.1 as int)
    &&& in_grid(grid_of(&r.0), r.2.0 as int, r.2.1 as int)
    &&& exists|parts: Seq<Rect>, links: Seq<Link>, shapes: Seq<RoomShape>|
        level_plan(width, height, parts, links, shapes)
            && grid_of(&r.0) == level_grid(width, height, parts, links, shapes)
            && (r.2.0 as int, r.2.1 as int) == parts[0].center_spec()
            && (r.1.0 as int, r.1.1 as int) == parts.last().center_spec()
            && forall|k: int|
            before.len() + (if level == 0 { 0int } else { 1int }) <= k < after.len() - 1 ==> exists|m: int|
                1 <= m < parts.len() && contains(parts[m], (#[trigger] after[k]).x as int, after[k].y as int)
    &&& objects_placed(width, height, level, before, after, r.1, r.2)
    &&& forall|k: int|
        before.len() + (if level == 0 { 0int } else { 1int }) <= k < after.len() - 1 ==> is_floor(
            grid_of(&r.0),
            (#[trigger] after[k]).x as int,
            after[k].y as int,
        ) && spawned_kind(level, after[k])
}

/// Carves a corridor between each region and the one before it, and, past six regions,
/// one between a random early region and a random late one.
fn connect_regions(parts: &Vec<Rect>, map: &mut TileMap, rng: &mut rand::StdRng) -> (links: Ghost<Seq<Link>>)
    requires
        is_grid(grid_of(old(map))),
        1 <= parts@.len() <= 0x40000000,
        forall|k: int| 0 <= k < parts@.len() ==> in_grid(grid_of(old(map)), (#[trigger] parts@[k]).center_spec().0, parts@[k].center_spec().1),
    ensures
        links_ok(parts@.len() as int, links@),
        grid_of(final(map)) == with_corridors(grid_of(old(map)), parts@, links@),
        is_grid(grid_of(final(map))),
        width_of(grid_of(final(map))) == width_of(grid_of(old(map))),
        height_of(grid_of(final(map))) == height_of(grid_of(old(map))),
{
    let ghost g0 = grid_of(map);
    let ghost w = width_of(g0);
    let ghost h = height_of(g0);
    let n: usize = parts.len();
    let ghost mut links: Seq<Link> = Seq::empty();
    let mut i: usize = 1;
    while i < n
        invariant
            1 <= i <= n,
            n == parts@.len(),
            is_grid(g0),
            width_of(g0) == w,
            height_of(g0) == h,
            forall|k: int| 0 <= k < n ==> in_grid(g0, (#[trigger] parts@[k]).center_spec().0, parts@[k].center_spec().1),
            is_grid(grid_of(map)),
            width_of(grid_of(map)) == w,
            height_of(grid_of(map)) == h,
            grid_of(map) == with_corridors(g0, parts@, links),
            links.len() == i - 1,
            forall|k: int| 0 <= k < i - 1 ==> (#[trigger] links[k]).0 == k && links[k].1 == k + 1,
        decreases n - i,
    {
        let ghost gb = grid_of(map);
        let a = parts[i - 1];
        let b = parts[i];
        assert(in_grid(g0, parts@[i - 1].center_spec().0, parts@[i - 1].center_spec().1));
        assert(in_grid(g0, parts@[i as int].center_spec().0, parts@[i as int].center_spec().1));
        let hf = carve_tunnel(a, b, map, rng);
        proof {
            let l: Link = ((i - 1) as int, i as int, hf);
            lemma_paint_shape(gb, corridor(a.center_spec(), b.center_spec(), hf), floor_tile());
            assert(links.push(l).drop_last() =~= links);
            links = links.push(l);
        }
        i = i + 1;
    }
    if n > 6 {
        let num_rooms: i32 = n as i32;
        let start: usize = roll(rng, 1, num_rooms / 3) as usize;
        let late: i32 = (2 * num_rooms as i64 / 3) as i32;
        let end: usize = roll(rng, late, num_rooms) as usize;
        let ghost gb = grid_of(map);
        let a = parts[start];
        let b = parts[end];
        assert(in_grid(g0, parts@[start as int].center_spec().0, parts@[start as int].center_spec().1));
        assert(in_grid(g0, parts@[end as int].center_spec().0, parts@[end as int].center_spec().1));
        let hf = carve_tunnel(a, b, map, rng);
        proof {
            let l: Link = (start as int, end as int, hf);
            lemma_paint_shape(gb, corridor(a.center_spec(), b.center_spec(), hf), floor_tile());
            assert(links.push(l).drop_last() =~= links);
            links = links.push(l);
        }
    }
    assert(links_ok(n as int, links));
    Ghost(links)
}

/// Carves a room into every region; marks the first region's center (the player on
/// level 0, a down-stairs marker otherwise) and populates every other region. Returns
/// the first region's center, the shapes carved, and the objects as they stood once the
/// first region was marked.
fn furnish_regions(
    parts: &Vec<Rect>,
    map: &mut TileMap,
    objects: &mut Vec<Object>,
    level: usize,
    rng: &mut rand::StdRng,
) -> (r: ((i32, i32), Ghost<Seq<RoomShape>>, Ghost<Seq<Object>>))
    requires
        parts@.len() >= 1,
        level <= 99,
        level == 0 ==> old(objects)@.len() > PLAYER,
        is_grid(grid_of(old(map))),
        forall|k: int| 0 <= k < parts@.len() ==> rect_in_grid(#[trigger] parts@[k], grid_of(old(map))) && region_ok(parts@[k], grid_of(old(map))),
        forall|k: int| 0 <= k < parts@.len() ==> in_grid(grid_of(old(map)), (#[trigger] parts@[k]).center_spec().0, parts@[k].center_spec().1),
        forall|i: int, k: int|
            0 <= i < parts@.len() && 0 <= k < parts@.len() && i != k ==> disjoint(#[trigger] parts@[i], #[trigger] parts@[k]),
    ensures
        grid_of(final(map)) == with_rooms(grid_of(old(map)), parts@, r.1@),
        r.1@.len() == parts@.len(),
        forall|k: int| 0 <= k < parts@.len() ==> shape_fits(#[trigger] parts@[k], r.1@[k]),
        is_grid(grid_of(final(map))),
        width_of(grid_of(final(map))) == width_of(grid_of(old(map))),
        height_of(grid_of(final(map))) == height_of(grid_of(old(map))),
        (r.0.0 as int, r.0.1 as int) == parts@[0].center_spec(),
        final(objects)@.len() >= r.2@.len(),
        final(objects)@.subrange(0, r.2@.len() as int) == r.2@,
        r.2@.len() >= old(objects)@.len(),
        forall|k: int| 0 <= k < old(objects)@.len() && !(level == 0 && k == PLAYER) ==> #[trigger] r.2@[k] == old(objects)@[k],
        level == 0 ==> r.2@[PLAYER as int] == (Object { x: r.0.0, y: r.0.1, ..old(objects)@[PLAYER as int] }),
        level != 0 ==> r.2@.len() == old(objects)@.len() + 1 && stairs(r.2@[old(objects)@.len() as int], '<', r.0)
            && r.2@[old(objects)@.len() as int].name@ == "down-stairs"@,
        level == 0 ==> r.2@.len() == old(objects)@.len(),
        forall|k: int| r.2@.len() <= k < final(objects)@.len() ==> pos_in(#[trigger] final(objects)@[k], width_of(grid_of(old(map))), height_of(grid_of(old(map)))),
        forall|k: int|
            r.2@.len() <= k < final(objects)@.len() ==> is_floor(grid_of(final(map)), (#[trigger] final(objects)@[k]).x as int, final(objects)@[k].y as int)
                && spawned_kind(level as int, final(objects)@[k])
                && exists|m: int| 1 <= m < parts@.len() && contains(parts@[m], final(objects)@[k].x as int, final(objects)@[k].y as int),
{
    let ghost g0 = grid_of(map);
    let ghost w = width_of(g0);
    let ghost h = height_of(g0);
    let ghost before = objects@;
    let n: usize = parts.len();
    proof {
        assert(npc_level_supported(level as int)) by {
            assert(0 <= 0 < crate::tables::npc_rows().len() && crate::tables::npc_on_level(0, level as int));
        }
        assert(loot_level_supported(level as int)) by {
            assert(0 <= 8 < crate::tables::loot_rows().len() && crate::tables::loot_on_level(8, level as int));
        }
    }
    let ghost mut shapes: Seq<RoomShape> = Seq::empty();
    let mut down_posi: (i32, i32) = (-1, -1);
    let ghost mut base: Seq<Object> = before;
    let mut j: usize = 0;
    while j < n
        invariant
            j <= n,
            n == parts@.len(),
            n >= 1,
            level <= 99,
            level == 0 ==> before.len() > PLAYER,
            npc_level_supported(level as int),
            loot_level_supported(level as int),
            is_grid(g0),
            width_of(g0) == w,
            height_of(g0) == h,
            forall|k: int| 0 <= k < n ==> rect_in_grid(#[trigger] parts@[k], g0) && region_ok(parts@[k], g0),
            forall|k: int| 0 <= k < n ==> in_grid(g0, (#[trigger] parts@[k]).center_spec().0, parts@[k].center_spec().1),
            is_grid(grid_of(map)),
            width_of(grid_of(map)) == w,
            height_of(grid_of(map)) == h,
            grid_of(map) == with_rooms(g0, parts@, shapes),
            shapes.len() == j,
            forall|k: int| 0 <= k < j ==> shape_fits(#[trigger] parts@[k], shapes[k]),
            j > 0 ==> (down_posi.0 as int, down_posi.1 as int) == parts@[0].center_spec(),
            j > 0 ==> objects@.len() >= base.len(),
            j > 0 ==> objects@.subrange(0, base.len() as int) == base,
            j > 0 ==> base.len() >= before.len(),
            j > 0 ==> forall|k: int| 0 <= k < before.len() && !(level == 0 && k == PLAYER) ==> #[trigger] base[k] == before[k],
            j > 0 && level == 0 ==> base[PLAYER as int] == (Object { x: down_posi.0, y: down_posi.1, ..before[PLAYER as int] }),
            j > 0 && level != 0 ==> base.len() == before.len() + 1 && stairs(base[before.len() as int], '<', down_posi)
                && base[before.len() as int].name@ == "down-stairs"@,
            j > 0 && level != 0 ==> pos_in(base[before.len() as int], w, h),
            j > 0 && level == 0 ==> base.len() == before.len(),
            j > 0 ==> forall|k: int| base.len() <= k < objects@.len() ==> pos_in(#[trigger] objects@[k], w, h),
            j > 0 ==> forall|k: int|
                base.len() <= k < objects@.len() ==> is_floor(grid_of(map), (#[trigger] objects@[k]).x as int, objects@[k].y as int)
                    && spawned_kind(level as int, objects@[k])
                    && exists|m: int| 1 <= m < j && contains(parts@[m], objects@[k].x as int, objects@[k].y as int),
            forall|i: int, k: int| 0 <= i < n && 0 <= k < n && i != k ==> disjoint(#[trigger] parts@[i], #[trigger] parts@[k]),
            j == 0 ==> objects@ == before,
        decreases n - j,
    {
        let part = parts[j];
        let ghost gb = grid_of(map);
        assert(region_ok(parts@[j as int], g0));
        let shape = create_room(part, map, rng);
        proof {
            crate::carve::lemma_carving_keeps_floor(gb, part, shape);
            lemma_carving_is_local(gb, part, shape);
            if j > 0 {
                assert forall|k: int| base.len() <= k < objects@.len() implies is_floor(grid_of(map), (#[trigger] objects@[k]).x as int, objects@[k].y as int)
                    && spawned_kind(level as int, objects@[k])
                    && exists|m: int| 1 <= m < j + 1 && contains(parts@[m], objects@[k].x as int, objects@[k].y as int) by {
                    let m = choose|m: int| 1 <= m < j && contains(parts@[m], objects@[k].x as int, objects@[k].y as int);
                    assert(disjoint(parts@[m], parts@[j as int]));
                    assert(is_floor(gb, objects@[k].x as int, objects@[k].y as int));
                }
            }
            assert(shapes.push(shape).drop_last() =~= shapes);
            shapes = shapes.push(shape);
        }
        let (new_x, new_y) = part.center();
        if j == 0 {
            down_posi = (new_x, new_y);
            assert(in_grid(g0, parts@[0].center_spec().0, parts@[0].center_spec().1));
            if level == 0 {
                objects[PLAYER].set_pos(new_x, new_y);
                proof {
                    base = objects@;
                    assert(objects@.subrange(0, base.len() as int) =~= base);
                }
            } else {
                let mut down_stairs = Object::new(new_x, new_y, '<', "down-stairs", Color::White, false);
                down_stairs.always_visible = true;
                objects.push(down_stairs);
                proof {
                    base = objects@;
                    assert(objects@.subrange(0, base.len() as int) =~= base);
                }
            }
        } else {
            let ghost prev = objects@;
            place_objects(part, map, objects, level as u32, rng);
            proof {
                assert(populated(part, grid_of(map), level as int, prev, objects@));
                assert(objects@.subrange(0, prev.len() as int) == prev);
                assert(objects@.subrange(0, base.len() as int) =~= prev.subrange(0, base.len() as int));
                assert forall|k: int| base.len() <= k < objects@.len() implies pos_in(#[trigger] objects@[k], w, h)
                    && is_floor(grid_of(map), objects@[k].x as int, objects@[k].y as int)
                    && spawned_kind(level as int, objects@[k])
                    && exists|m: int| 1 <= m < j + 1 && contains(parts@[m], objects@[k].x as int, objects@[k].y as int) by {
                    if k < prev.len() {
                        assert(objects@[k] == objects@.subrange(0, prev.len() as int)[k]);
                    } else {
                        assert(crate::populate::placed_in(part, grid_of(map), level as int, objects@[k]));
                        assert(contains(parts@[j as int], objects@[k].x as int, objects@[k].y as int));
                    }
                }
            }
        }
        j = j + 1;
    }
    (down_posi, Ghost(shapes), Ghost(base))
}

/// Builds a `width` by `height` level: partitions the interior, links consecutive regions
/// (and, past six regions, one early region to one late region) with corridors, carves a
/// room into every region, marks the first region's center (moving the player there on
/// level 0, adding a down-stairs marker otherwise), populates every other region, and adds
/// an up-stairs marker at the last region's center. Returns the grid, the up-stairs
/// position and the down-stairs position.
///
/// The interior must be larger than `ROOM_MIN_SIZE` both ways; `level` must be one on
/// which the NPC and loot tables both offer an entry (0 to 99); on level 0 the player
/// must already be among the objects. The sizes stay below `MAX_SPAN` and the rounds at
/// most 30 so that coordinates and region counts fit the machine integers used.
#[verifier::rlimit(60)]
pub fn generate_level(
    width: i32,
    height: i32,
    iterations: i32,
    objects: &mut Vec<Object>,
    level: usize,
    rng: &mut rand::StdRng,
) -> (r: (TileMap, (i32, i32), (i32, i32)))
    requires
        width - 2 > ROOM_MIN_SIZE,
        height - 2 > ROOM_MIN_SIZE,
        width < MAX_SPAN,
        height < MAX_SPAN,
        0 < iterations <= 30,
        level <= 99,
        level == 0 ==> old(objects)@.len() > PLAYER,
    ensures
        level_built(width as int, height as int, level as int, old(objects)@, final(objects)@, r),
{
    let ghost w = width as int;
    let ghost h = height as int;
    let ghost before = objects@;
    let mut map: TileMap = new_walls(width as usize, height as usize);
    let ghost g0 = grid_of(&map);
    proof {
        assert(is_grid(g0)) by {
            assert(g0[0].len() == h);
        }
    }
    let parts: Vec<Rect> = binary_space_partition(width - 2, height - 2, iterations, rng);
    let n: usize = parts.len();
    proof {
        crate::partition::lemma_max_regions_monotone(iterations as nat, 30);
        reveal_with_fuel(crate::partition::max_regions, 31);
        assert(crate::partition::max_regions(30) == 0x40000000);
    }
    let ghost bound = Rect { x0: 0, y0: 0, xf: (width - 2) as i32, yf: (height - 2) as i32 };
    proof {
        assert forall|i: int| 0 <= i < n implies rect_in_grid(#[trigger] parts@[i], g0) && region_ok(parts@[i], g0) by {
            assert(within(parts@[i], bound));
            assert(sized(parts@[i]));
        }
        assert forall|i: int| 0 <= i < n implies in_grid(g0, (#[trigger] parts@[i]).center_spec().0, parts@[i].center_spec().1) by {
            assert(within(parts@[i], bound));
            assert(sized(parts@[i]));
        }
    }
    let links: Ghost<Seq<Link>> = connect_regions(&parts, &mut map, rng);
    let ghost gc = grid_of(&map);
    let (down_posi, shapes, base) = furnish_regions(&parts, &mut map, objects, level, rng);
    let ghost links = links@;
    let ghost shapes = shapes@;
    let ghost base = base@;
    let last = parts[n - 1];
    let (last_room_x, last_room_y) = last.center();
    assert(in_grid(g0, parts@[n - 1].center_spec().0, parts@[n - 1].center_spec().1));
    let ghost prev = objects@;
    let mut up_stairs = Object::new(last_room_x, last_room_y, '>', "up-stairs", Color::White, false);
    up_stairs.always_visible = true;
    objects.push(up_stairs);
    proof {
        assert forall|k: int| 0 <= k < before.len() && !(level == 0 && k == PLAYER) implies #[trigger] objects@[k] == before[k] by {
            assert(objects@[k] == prev[k]);
            assert(prev[k] == prev.subrange(0, base.len() as int)[k]);
        }
        if level == 0 {
            assert(objects@[PLAYER as int] == prev.subrange(0, base.len() as int)[PLAYER as int]);
        } else {
            assert(objects@[before.len() as int] == prev.subrange(0, base.len() as int)[before.len() as int]);
        }
        assert forall|k: int|
            before.len() + (if level == 0 { 0int } else { 1int }) <= k < objects@.len() - 1 implies is_floor(
                grid_of(&map),
                (#[trigger] objects@[k]).x as int,
                objects@[k].y as int,
            ) && spawned_kind(level as int, objects@[k]) && exists|m: int|
                1 <= m < parts@.len() && contains(parts@[m], objects@[k].x as int, objects@[k].y as int) by {
            assert(objects@[k] == prev[k]);
        }
        assert forall|k: int| before.len() <= k < objects@.len() implies pos_in(#[trigger] objects@[k], w, h) by {
            if k < base.len() {
                assert(objects@[k] == prev.subrange(0, base.len() as int)[k]);
            } else if k < prev.len() {
                assert(objects@[k] == prev[k]);
            }
        }
        assert(level_plan(w, h, parts@, links, shapes));
        assert(gc == with_corridors(walls(w, h), parts@, links));
    }
    (map, (last_room_x, last_room_y), down_posi)
}

/// Generates dungeon level `level` at the standard size, into that level's objects.
pub fn bsp_mod(all_objects: &mut Vec<Vec<Object>>, level: usize, rng: &mut rand::StdRng) -> (r: (TileMap, (i32, i32), (i32, i32)))
    requires
        level < old(all_objects)@.len(),
        level <= 99,
        level == 0 ==> old(all_objects)@[0]@.len() > PLAYER,
    ensures
        final(all_objects)@.len() == old(all_objects)@.len(),
        forall|k: int| 0 <= k < old(all_objects)@.len() && k != level ==> #[trigger] final(all_objects)@[k] == old(all_objects)@[k],
        level_built(MAP_WIDTH as int, MAP_HEIGHT as int, level as int, old(all_objects)@[level as int]@, final(all_objects)@[level as int]@, r),
{
    let objects: &mut Vec<Object> = &mut all_objects[level];
    generate_level(MAP_WIDTH, MAP_HEIGHT, ITERATIONS, objects, level, rng)
}

/// Generates dungeon level `level`: every level is laid out by `bsp_mod`.
pub fn make_map(all_objects: &mut Vec<Vec<Object>>, level: usize, rng: &mut rand::StdRng) -> (r: (TileMap, (i32, i32), (i32, i32)))
    requires
        level < old(all_objects)@.len(),
        level <= 99,
        level == 0 ==> old(all_objects)@[0]@.len() > PLAYER,
    ensures
        final(all_objects)@.len() == old(all_objects)@.len(),
        forall|k: int| 0 <= k < old(all_objects)@.len() && k != level ==> #[trigger] final(all_objects)@[k] == old(all_objects)@[k],
        level_built(MAP_WIDTH as int, MAP_HEIGHT as int, level as int, old(all_objects)@[level as int]@, final(all_objects)@[level as int]@, r),
{
    bsp_mod(all_objects, level, rng)
}

/// Generates every dungeon level of a game, level `i` into `all_objects[i]`; returns the
/// grids, the up-stairs positions and the down-stairs positions, by level.
pub fn make_maps(all_objects: &mut Vec<Vec<Object>>, rng: &mut rand::StdRng) -> (r: (Vec<TileMap>, Vec<(i32, i32)>, Vec<(i32, i32)>))
    requires
        old(all_objects)@.len() == NUM_LVLS,
        old(all_objects)@[0]@.len() > PLAYER,
    ensures
        final(all_objects)@.len() == NUM_LVLS,
        r.0@.len() == NUM_LVLS && r.1@.len() == NUM_LVLS && r.2@.len() == NUM_LVLS,
        forall|i: int|
            0 <= i < NUM_LVLS ==> level_built(
                MAP_WIDTH as int,
                MAP_HEIGHT as int,
                i,
                old(all_objects)@[i]@,
                final(all_objects)@[i]@,
                (#[trigger] r.0@[i], r.1@[i], r.2@[i]),
            ),
{
    let ghost before = all_objects@;
    let mut maps: Vec<TileMap> = Vec::new();
    let mut up_stairs: Vec<(i32, i32)> = Vec::new();
    let mut down_stairs: Vec<(i32, i32)> = Vec::new();
    let mut i: usize = 0;
    while i < NUM_LVLS
        invariant
            i <= NUM_LVLS,
            all_objects@.len() == NUM_LVLS,
            before.len() == NUM_LVLS,
            before[0]@.len() > PLAYER,
            i == 0 ==> all_objects@[0] == before[0],
            forall|k: int| i <= k < NUM_LVLS ==> #[trigger] all_objects@[k] == before[k],
            maps@.len() == i && up_stairs@.len() == i && down_stairs@.len() == i,
            forall|k: int|
                0 <= k < i ==> level_built(
                    MAP_WIDTH as int,
                    MAP_HEIGHT as int,
                    k,
                    before[k]@,
                    all_objects@[k]@,
                    (#[trigger] maps@[k], up_stairs@[k], down_stairs@[k]),
                ),
        decreases NUM_LVLS - i,
    {
        let (m, up, down) = make_map(all_objects, i, rng);
        maps.push(m);
        up_stairs.push(up);
        down_stairs.push(down);
        i = i + 1;
    }
    (maps, up_stairs, down_stairs)
}

/// Carving corridors keeps the grid's size.
pub proof fn lemma_corridors_keep_size(g: Grid, parts: Seq<Rect>, links: Seq<Link>)
    requires
        is_grid(g),
    ensures
        is_grid(with_corridors(g, parts, links)),
        width_of(with_corridors(g, parts, links)) == width_of(g),
        height_of(with_corridors(g, parts, links)) == height_of(g),
    decreases links.len(),
{
    if links.len() > 0 {
        let l = links.last();
        lemma_corridors_keep_size(g, parts, links.drop_last());
        lemma_paint_shape(
            with_corridors(g, parts, links.drop_last()),
            corridor(parts[l.0].center_spec(), parts[l.1].center_spec(), l.2),
            floor_tile(),
        );
    }
}

/// The regions of a plan for a `width` by `height` level are regions that rooms are
/// carved into, in any grid of that size.
pub proof fn lemma_plan_regions_ok(width: int, height: int, parts: Seq<Rect>, links: Seq<Link>, shapes: Seq<RoomShape>, g: Grid)
    requires
        level_plan(width, height, parts, links, shapes),
        width - 2 > ROOM_MIN_SIZE,
        height - 2 > ROOM_MIN_SIZE,
        width < MAX_SPAN,
        height < MAX_SPAN,
        is_grid(g),
        width_of(g) == width,
        height_of(g) == height,
    ensures
        forall|i: int| 0 <= i < parts.len() ==> region_ok(#[trigger] parts[i], g),
{
    let bound = Rect { x0: 0, y0: 0, xf: (width - 2) as i32, yf: (height - 2) as i32 };
    assert forall|i: int| 0 <= i < parts.len() implies region_ok(#[trigger] parts[i], g) by {
        assert(within(parts[i], bound));
        assert(sized(parts[i]));
    }
}

/// Carving rooms keeps the grid's size.
pub proof fn lemma_rooms_keep_size(g: Grid, parts: Seq<Rect>, shapes: Seq<RoomShape>)
    requires
        is_grid(g),
        shapes.len() <= parts.len(),
        forall|i: int| 0 <= i < shapes.len() ==> region_ok(#[trigger] parts[i], g) && shape_fits(parts[i], shapes[i]),
    ensures
        is_grid(with_rooms(g, parts, shapes)),
        width_of(with_rooms(g, parts, shapes)) == width_of(g),
        height_of(with_rooms(g, parts, shapes)) == height_of(g),
    decreases shapes.len(),
{
    if shapes.len() > 0 {
        let inner = shapes.drop_last();
        assert forall|i: int| 0 <= i < inner.len() implies region_ok(#[trigger] parts[i], g) && shape_fits(parts[i], inner[i]) by {
            assert(inner[i] == shapes[i]);
        }
        lemma_rooms_keep_size(g, parts, inner);
        lemma_carving_keeps_floor(with_rooms(g, parts, inner), parts[shapes.len() - 1], shapes.last());
    }
}

/// Once the first region's room is carved, its center stays as that room left it.
proof fn lemma_first_center_kept(g: Grid, parts: Seq<Rect>, shapes: Seq<RoomShape>)
    requires
        is_grid(g),
        1 <= shapes.len() <= parts.len(),
        forall|i: int| 0 <= i < shapes.len() ==> region_ok(#[trigger] parts[i], g) && shape_fits(parts[i], shapes[i]),
        forall|i: int, j: int| 0 <= i < parts.len() && 0 <= j < parts.len() && i != j ==> disjoint(#[trigger] parts[i], #[trigger] parts[j]),
        !(shapes[0] is Ellipse && has_pillar(parts[0])),
    ensures
        is_floor(with_rooms(g, parts, shapes), parts[0].center_spec().0, parts[0].center_spec().1),
    decreases shapes.len(),
{
    let c = parts[0].center_spec();
    let inner = shapes.drop_last();
    assert forall|i: int| 0 <= i < inner.len() implies region_ok(#[trigger] parts[i], g) && shape_fits(parts[i], inner[i]) by {
        assert(inner[i] == shapes[i]);
    }
    lemma_rooms_keep_size(g, parts, inner);
    let gi = with_rooms(g, parts, inner);
    let k = shapes.len() - 1;
    if shapes.len() == 1 {
        assert(gi == g);
        lemma_center_is_floor(g, parts[0], shapes[0]);
    } else {
        lemma_first_center_kept(g, parts, inner);
        lemma_carving_is_local(gi, parts[k], shapes[k]);
        assert(disjoint(parts[0], parts[k]));
        assert(contains(parts[0], c.0, c.1));
        assert(!in_box(parts[k].x0 as int, parts[k].xf as int, parts[k].y0 as int, parts[k].yf as int, c.0, c.1));
        lemma_carving_keeps_floor(gi, parts[k], shapes[k]);
    }
}

/// In a level laid out by a plan, the down-stairs position (the first region's center)
/// and the up-stairs position (the last region's center) are floor, unless that region
/// holds an elliptic room large enough to have its pillar there.
pub proof fn lemma_stairs_on_floor(width: int, height: int, parts: Seq<Rect>, links: Seq<Link>, shapes: Seq<RoomShape>)
    requires
        level_plan(width, height, parts, links, shapes),
        width - 2 > ROOM_MIN_SIZE,
        height - 2 > ROOM_MIN_SIZE,
        width < MAX_SPAN,
        height < MAX_SPAN,
    ensures
        !(shapes[0] is Ellipse && has_pillar(parts[0])) ==> is_floor(
            level_grid(width, height, parts, links, shapes),
            parts[0].center_spec().0,
            parts[0].center_spec().1,
        ),
        !(shapes.last() is Ellipse && has_pillar(parts.last())) ==> is_floor(
            level_grid(width, height, parts, links, shapes),
            parts.last().center_spec().0,
            parts.last().center_spec().1,
        ),
{
    let g0 = walls(width, height);
    assert(is_grid(g0)) by {
        assert(g0[0].len() == height);
    }
    lemma_corridors_keep_size(g0, parts, links);
    let gc = with_corridors(g0, parts, links);
    lemma_plan_regions_ok(width, height, parts, links, shapes, gc);
    if !(shapes[0] is Ellipse && has_pillar(parts[0])) {
        lemma_first_center_kept(gc, parts, shapes);
    }
    let n = shapes.len();
    let inner = shapes.drop_last();
    assert forall|i: int| 0 <= i < inner.len() implies region_ok(#[trigger] parts[i], gc) && shape_fits(parts[i], inner[i]) by {
        assert(inner[i] == shapes[i]);
    }
    lemma_rooms_keep_size(gc, parts, inner);
    if !(shapes.last() is Ellipse && has_pillar(parts.last())) {
        lemma_center_is_floor(with_rooms(gc, parts, inner), parts[n - 1], shapes[n - 1]);
    }
}

/// After the corridors of `links` are carved, a floor walk joins the two ends of each.
proof fn lemma_links_connect(g: Grid, parts: Seq<Rect>, links: Seq<Link>)
    requires
        is_grid(g),
        forall|k: int| 0 <= k < links.len() ==> 0 <= (#[trigger] links[k]).0 < parts.len() && 0 <= links[k].1 < parts.len(),
        forall|i: int| 0 <= i < parts.len() ==> in_grid(g, (#[trigger] parts[i]).center_spec().0, parts[i].center_spec().1),
    ensures
        forall|k: int|
            0 <= k < links.len() ==> connected(
                with_corridors(g, parts, links),
                parts[(#[trigger] links[k]).0].center_spec(),
                parts[links[k].1].center_spec(),
            ),
    decreases links.len(),
{
    if links.len() > 0 {
        let inner = links.drop_last();
        assert forall|k: int| 0 <= k < inner.len() implies 0 <= (#[trigger] inner[k]).0 < parts.len() && 0 <= inner[k].1 < parts.len() by {
            assert(inner[k] == links[k]);
        }
        lemma_links_connect(g, parts, inner);
        lemma_corridors_keep_size(g, parts, inner);
        let gi = with_corridors(g, parts, inner);
        let l = links.last();
        let r = corridor(parts[l.0].center_spec(), parts[l.1].center_spec(), l.2);
        lemma_paint_floor_keeps_floor(gi, r);
        lemma_corridor_connects(gi, parts[l.0].center_spec(), parts[l.1].center_spec(), l.2);
        assert forall|k: int| 0 <= k < links.len() implies connected(
            with_corridors(g, parts, links),
            parts[(#[trigger] links[k]).0].center_spec(),
            parts[links[k].1].center_spec(),
        ) by {
            if k < inner.len() {
                assert(inner[k] == links[k]);
                lemma_connected_kept(gi, paint(gi, r, floor_tile()), parts[links[k].0].center_spec(), parts[links[k].1].center_spec());
            }
        }
    }
}

/// Rooms without a pillar keep every floor cell floor.
proof fn lemma_rooms_keep_floor(g: Grid, parts: Seq<Rect>, shapes: Seq<RoomShape>)
    requires
        is_grid(g),
        shapes.len() <= parts.len(),
        forall|i: int| 0 <= i < shapes.len() ==> region_ok(#[trigger] parts[i], g) && shape_fits(parts[i], shapes[i]),
        forall|i: int| 0 <= i < shapes.len() ==> !((#[trigger] shapes[i]) is Ellipse && has_pillar(parts[i])),
    ensures
        keeps_floor(g, with_rooms(g, parts, shapes)),
    decreases shapes.len(),
{
    if shapes.len() == 0 {
        lemma_keeps_floor_refl(g);
    } else {
        let inner = shapes.drop_last();
        assert forall|i: int| 0 <= i < inner.len() implies region_ok(#[trigger] parts[i], g) && shape_fits(parts[i], inner[i]) by {
            assert(inner[i] == shapes[i]);
        }
        assert forall|i: int| 0 <= i < inner.len() implies !((#[trigger] inner[i]) is Ellipse && has_pillar(parts[i])) by {
            assert(inner[i] == shapes[i]);
        }
        lemma_rooms_keep_floor(g, parts, inner);
        lemma_rooms_keep_size(g, parts, inner);
        let gi = with_rooms(g, parts, inner);
        let k = shapes.len() - 1;
        lemma_carving_keeps_floor(gi, parts[k], shapes[k]);
        assert(!(shapes[k] is Ellipse && has_pillar(parts[k])));
        lemma_keeps_floor_trans(g, gi, with_rooms(g, parts, shapes));
    }
}

/// In a level laid out by a plan in which no room is an ellipse with a pillar, a floor
/// walk leads from the first region's center to every region's center.
pub proof fn lemma_level_connected(width: int, height: int, parts: Seq<Rect>, links: Seq<Link>, shapes: Seq<RoomShape>)
    requires
        level_plan(width, height, parts, links, shapes),
        width - 2 > ROOM_MIN_SIZE,
        height - 2 > ROOM_MIN_SIZE,
        width < MAX_SPAN,
        height < MAX_SPAN,
        forall|i: int| 0 <= i < shapes.len() ==> !((#[trigger] shapes[i]) is Ellipse && has_pillar(parts[i])),
    ensures
        forall|i: int|
            0 <= i < parts.len() ==> connected(
                level_grid(width, height, parts, links, shapes),
                parts[0].center_spec(),
                (#[trigger] parts[i]).center_spec(),
            ),
{
    let n = parts.len() as int;
    let g0 = walls(width, height);
    assert(is_grid(g0)) by {
        assert(g0[0].len() == height);
    }
    let bound = Rect { x0: 0, y0: 0, xf: (width - 2) as i32, yf: (height - 2) as i32 };
    assert forall|i: int| 0 <= i < n implies in_grid(g0, (#[trigger] parts[i]).center_spec().0, parts[i].center_spec().1) by {
        assert(within(parts[i], bound));
        assert(sized(parts[i]));
    }
    assert forall|k: int| 0 <= k < links.len() implies 0 <= (#[trigger] links[k]).0 < n && 0 <= links[k].1 < n by {
        if k < n - 1 {
            assert(links[k].0 == k);
        }
    }
    lemma_links_connect(g0, parts, links);
    lemma_corridors_keep_size(g0, parts, links);
    let gc = with_corridors(g0, parts, links);
    lemma_plan_regions_ok(width, height, parts, links, shapes, gc);
    lemma_rooms_keep_floor(gc, parts, shapes);
    let gf = level_grid(width, height, parts, links, shapes);
    let c0 = parts[0].center_spec();
    lemma_first_center_kept(gc, parts, shapes);
    assert forall|i: int| 0 <= i < n implies connected(gf, c0, (#[trigger] parts[i]).center_spec()) by {
        lemma_chain_connected(gc, gf, parts, links, i);
    }
}

proof fn lemma_chain_connected(gc: Grid, gf: Grid, parts: Seq<Rect>, links: Seq<Link>, i: int)
    requires
        0 <= i < parts.len(),
        keeps_floor(gc, gf),
        forall|k: int| 0 <= k < parts.len() - 1 ==> (#[trigger] links[k]).0 == k && links[k].1 == k + 1,
        links.len() >= parts.len() - 1,
        forall|k: int| 0 <= k < links.len() ==> connected(gc, parts[(#[trigger] links[k]).0].center_spec(), parts[links[k].1].center_spec()),
        is_floor(gf, parts[0].center_spec().0, parts[0].center_spec().1),
    ensures
        connected(gf, parts[0].center_spec(), parts[i].center_spec()),
    decreases i,
{
    if i == 0 {
        let c = parts[0].center_spec();
        let p = seq![c];
        assert(crate::reach::floor_path(gf, p));
        assert(p[0] == c && p.last() == c);
    } else {
        lemma_chain_connected(gc, gf, parts, links, i - 1);
        let l = links[i - 1];
        assert(l.0 == i - 1 && l.1 == i);
        lemma_connected_kept(gc, gf, parts[i - 1].center_spec(), parts[i].center_spec());
        lemma_connected_trans(gf, parts[0].center_spec(), parts[i - 1].center_spec(), parts[i].center_spec());
    }
}

} // verus!
