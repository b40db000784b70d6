use feb2::flat_grid::{
    apply_horizontal_tunnel, apply_room_to_map, apply_vertical_tunnel, draw_map, new_map_rooms_and_corridors,
    new_map_test, xy_idx, TileType,
};
use feb2::level::{bsp_mod, generate_level, make_map, MAP_HEIGHT, MAP_WIDTH, PLAYER};
use feb2::map::{new_walls, Tile, TileMap};
use feb2::objects::{num_in_slot, Ai, Color, Object, Slot};
use feb2::partition::binary_space_partition;
use feb2::player::xp_to_level_up;
use feb2::populate::{is_blocked, place_objects};
use feb2::rect::Rect;
use feb2::tables::{generate_floor_item, generate_npc, NPC};
use feb2::transition::{from_map_level, Transition};
use rand::{SeedableRng, StdRng};

fn seeded(seed: usize) -> StdRng {
    let s: &[usize] = &[seed, 17, 4242];
    StdRng::from_seed(s)
}

fn player() -> Object {
    Object::new(0, 0, '@', "player", Color::White, true)
}

fn reachable(map: &TileMap, from: (i32, i32), to: (i32, i32)) -> bool {
    let w = map.len() as i32;
    let h = map[0].len() as i32;
    let mut seen = vec![vec![false; h as usize]; w as usize];
    let mut stack = vec![from];
    while let Some((x, y)) = stack.pop() {
        if x < 0 || y < 0 || x >= w || y >= h || seen[x as usize][y as usize] || map[x as usize][y as usize].blocked {
            continue;
        }
        seen[x as usize][y as usize] = true;
        if (x, y) == to {
            return true;
        }
        stack.extend_from_slice(&[(x + 1, y), (x - 1, y), (x, y + 1), (x, y - 1)]);
    }
    false
}

fn pillar_at(map: &TileMap, c: (i32, i32)) -> bool {
    (-1..=1).all(|dx| (-1..=1).all(|dy| map[(c.0 + dx) as usize][(c.1 + dy) as usize].blocked))
}

#[test]
fn step_table_lookup() {
    let t = [
        Transition { level: 0, value: 10 },
        Transition { level: 10, value: 32 },
        Transition { level: 11, value: 10 },
        Transition { level: 20, value: 64 },
    ];
    assert_eq!(from_map_level(&t, 0), 10);
    assert_eq!(from_map_level(&t, 9), 10);
    assert_eq!(from_map_level(&t, 10), 32);
    assert_eq!(from_map_level(&t, 11), 10);
    assert_eq!(from_map_level(&t, 25), 64);
    let late = [Transition { level: 3, value: 7 }];
    assert_eq!(from_map_level(&late, 2), 0);
    assert_eq!(from_map_level(&[], 5), 0);
}

#[test]
fn experience_needed() {
    assert_eq!(xp_to_level_up(0), 350);
    assert_eq!(xp_to_level_up(3), 800);
}

#[test]
fn slots_hold_items() {
    assert_eq!(num_in_slot(Slot::Hand), Some(2));
    assert_eq!(num_in_slot(Slot::Ring), Some(8));
    assert_eq!(num_in_slot(Slot::Head), Some(1));
}

#[test]
fn flat_index() {
    assert_eq!(xy_idx(3, 2), 163);
    assert_eq!(xy_idx(79, 49), 3999);
}

#[test]
fn demonstration_grid() {
    let m = new_map_rooms_and_corridors();
    assert_eq!(m.len(), 4000);
    assert_eq!(m[xy_idx(21, 16)], TileType::Floor);
    assert_eq!(m[xy_idx(20, 16)], TileType::Wall);
    assert_eq!(m[xy_idx(33, 23)], TileType::Floor);
    assert_eq!(m[xy_idx(33, 24)], TileType::Wall);
    assert_eq!(m[xy_idx(45, 30)], TileType::Floor);
    assert_eq!(m.iter().filter(|t| **t == TileType::Floor).count(), 150 + 150 + 5);
}

#[test]
fn flat_tunnels_skip_cell_zero() {
    let mut m = vec![TileType::Wall; 4000];
    apply_horizontal_tunnel(&mut m, 4, 0, 0);
    assert_eq!(m[0], TileType::Wall);
    assert_eq!(m.iter().filter(|t| **t == TileType::Floor).count(), 4);
    apply_vertical_tunnel(&mut m, 3, 1, 10);
    assert_eq!(m[xy_idx(10, 2)], TileType::Floor);
    apply_room_to_map(&Rect::new(50, 40, 52, 42), &mut m);
    assert_eq!(m[xy_idx(52, 42)], TileType::Floor);
    assert_eq!(m[xy_idx(50, 42)], TileType::Wall);
}

#[test]
fn drawing_the_flat_grid() {
    let m = vec![TileType::Wall, TileType::Floor];
    assert_eq!(draw_map(&m), vec![(0, 0, '#'), (1, 0, '.')]);
    let big = new_map_rooms_and_corridors();
    let cells = draw_map(&big);
    assert_eq!(cells[80], (0, 1, '#'));
    assert_eq!(cells[xy_idx(21, 16)], (21, 16, '.'));
}

#[test]
fn random_test_grid_keeps_border_and_middle() {
    let mut rng = seeded(3);
    let m = new_map_test(&mut rng);
    assert_eq!(m.len(), 4000);
    assert_eq!(m[xy_idx(40, 25)], TileType::Floor);
    for x in 0..80 {
        assert_eq!(m[xy_idx(x, 0)], TileType::Wall);
        assert_eq!(m[xy_idx(x, 49)], TileType::Wall);
    }
    assert!(m.iter().filter(|t| **t == TileType::Wall).count() > 258);
}

#[test]
fn partition_tiles_the_rectangle() {
    for seed in 0..20 {
        let mut rng = seeded(seed);
        let (w, h) = (78, 41);
        let parts = binary_space_partition(w, h, 6, &mut rng);
        assert!(!parts.is_empty());
        let mut count = vec![vec![0; (h + 1) as usize]; (w + 1) as usize];
        for p in parts.iter() {
            assert!(p.xf - p.x0 + 1 >= 1 && p.yf - p.y0 + 1 >= 1);
            assert!(p.xf - p.x0 >= 4 && p.yf - p.y0 >= 4);
            for x in p.x0..=p.xf {
                for y in p.y0..=p.yf {
                    count[x as usize][y as usize] += 1;
                }
            }
        }
        assert!(count.iter().all(|col| col.iter().all(|c| *c == 1)));
    }
}

#[test]
fn minimal_level_partition() {
    for seed in 0..10 {
        let mut rng = seeded(seed);
        let parts = binary_space_partition(20, 15, 1, &mut rng);
        assert!(parts.len() == 1 || parts.len() == 2);
    }
}

#[test]
fn npc_and_item_generation() {
    let mut rng = seeded(9);
    for _ in 0..50 {
        let o = generate_npc(10, &mut rng);
        assert!("IOTM".contains(o.chr));
        assert_eq!((o.x, o.y), (-1, -1));
        assert!(o.blocks && o.alive && o.fighter.is_some());
        assert_eq!(o.ai, Some(Ai::Basic));
        let i = generate_floor_item(0, &mut rng);
        assert!("-!~".contains(i.chr));
        assert!(!i.blocks && i.item.is_some());
    }
    let demon = generate_npc(50, &mut rng);
    assert!(demon.chr == 'I' || demon.chr == 'D');
}

#[test]
fn npc_entry_generates_fighter() {
    let n = NPC::new('T', "troll", Ai::Basic, 60, 2, 8, 100, 30, 0, 19, 25);
    let o = n.generate();
    assert_eq!(o.name, "troll");
    let f = o.fighter.unwrap();
    assert_eq!((f.hp, f.base_max_hp, f.base_defense, f.base_power, f.xp), (30, 60, 2, 8, 100));
}

#[test]
fn blocked_by_tile_or_object() {
    let mut m = new_walls(5, 5);
    m[2][2] = Tile::empty();
    m[3][2] = Tile::empty();
    let objs = vec![Object::new(3, 2, 'o', "orc", Color::White, true)];
    assert!(is_blocked(1, 1, &m, &objs));
    assert!(!is_blocked(2, 2, &m, &objs));
    assert!(is_blocked(3, 2, &m, &objs));
}

#[test]
fn spawns_only_on_floor() {
    let mut m = new_walls(30, 30);
    for x in 5..25 {
        for y in 5..25 {
            if (x + y) % 3 != 0 {
                m[x][y] = Tile::empty();
            }
        }
    }
    let part = Rect::new(2, 2, 27, 27);
    let mut placed = 0;
    for seed in 0..40 {
        let mut rng = seeded(seed);
        let mut objs = vec![player()];
        place_objects(part, &m, &mut objs, 5, &mut rng);
        assert_eq!(objs[0], player());
        for o in objs.iter().skip(1) {
            assert!(!m[o.x as usize][o.y as usize].blocked);
            assert!(o.x >= 2 && o.x <= 27 && o.y >= 2 && o.y <= 27);
        }
        placed += objs.len() - 1;
    }
    assert!(placed > 0);
}

#[test]
fn level_is_bounded_and_marked() {
    for seed in 0..10 {
        let mut rng = seeded(seed);
        let mut objs: Vec<Object> = vec![];
        let (map, up, down) = generate_level(MAP_WIDTH, MAP_HEIGHT, 6, &mut objs, 4, &mut rng);
        assert_eq!(map.len(), MAP_WIDTH as usize);
        assert!(map.iter().all(|c| c.len() == MAP_HEIGHT as usize));
        for o in objs.iter() {
            assert!(o.x >= 0 && o.x < MAP_WIDTH && o.y >= 0 && o.y < MAP_HEIGHT);
        }
        assert_eq!((objs[0].chr, objs[0].x, objs[0].y), ('<', down.0, down.1));
        for o in objs[1..objs.len() - 1].iter() {
            assert!(!map[o.x as usize][o.y as usize].blocked);
        }
        let last = objs.last().unwrap();
        assert_eq!((last.chr, last.x, last.y), ('>', up.0, up.1));
        for x in 0..MAP_WIDTH as usize {
            assert!(map[x][MAP_HEIGHT as usize - 1].blocked);
        }
        for y in 0..MAP_HEIGHT as usize {
            assert!(map[MAP_WIDTH as usize - 1][y].blocked);
        }
    }
}

#[test]
fn level_zero_moves_the_player() {
    let mut rng = seeded(5);
    let mut all = vec![vec![player()], vec![]];
    let (_, _, down) = bsp_mod(&mut all, 0, &mut rng);
    assert_eq!(all[0][PLAYER].pos(), down);
    assert_eq!(all[0][PLAYER].chr, '@');
    assert!(all[0].iter().all(|o| o.chr != '<'));
    assert!(all[1].is_empty());
}

#[test]
fn same_seed_same_level() {
    for seed in 0..5 {
        let mut a = vec![vec![player()], vec![], vec![], vec![]];
        let mut b = vec![vec![player()], vec![], vec![], vec![]];
        let ra = make_map(&mut a, 3, &mut seeded(seed));
        let rb = make_map(&mut b, 3, &mut seeded(seed));
        assert_eq!(ra, rb);
        assert_eq!(a, b);
    }
}

#[test]
fn stairs_on_floor_or_pillar() {
    let mut floor_both = 0;
    for seed in 0..30 {
        let mut rng = seeded(seed);
        let mut objs: Vec<Object> = vec![];
        let (map, up, down) = generate_level(MAP_WIDTH, MAP_HEIGHT, 6, &mut objs, 2, &mut rng);
        for p in [up, down].iter() {
            assert!(!map[p.0 as usize][p.1 as usize].blocked || pillar_at(&map, *p));
        }
        if !map[up.0 as usize][up.1 as usize].blocked && !map[down.0 as usize][down.1 as usize].blocked {
            floor_both += 1;
            assert!(reachable(&map, down, up));
        }
    }
    assert!(floor_both > 0);
}

#[test]
fn small_level_scenario() {
    for seed in 0..10 {
        let mut rng = seeded(seed);
        let mut objs: Vec<Object> = vec![];
        let (map, up, down) = generate_level(22, 17, 1, &mut objs, 1, &mut rng);
        assert_eq!(map.len(), 22);
        assert!(up != down);
        assert!(objs.len() >= 2);
    }
}

#[test]
fn all_levels_of_a_game() {
    let mut rng = seeded(11);
    let mut all: Vec<Vec<Object>> = (0..feb2::level::NUM_LVLS).map(|_| vec![]).collect();
    all[0].push(player());
    let (maps, ups, downs) = feb2::level::make_maps(&mut all, &mut rng);
    assert_eq!(maps.len(), 21);
    assert_eq!(ups.len(), 21);
    assert_eq!(downs.len(), 21);
    assert_eq!(all[0][PLAYER].pos(), downs[0]);
    for lvl in 1..21 {
        assert_eq!(all[lvl][0].chr, '<');
        assert_eq!(all[lvl].last().unwrap().chr, '>');
    }
}

#[test]
fn draws_vary_with_the_seed() {
    let layouts: Vec<Vec<Rect>> = (0..8).map(|s| binary_space_partition(78, 41, 6, &mut seeded(s))).collect();
    assert!(layouts.iter().any(|l| *l != layouts[0]));
    let mut rng = seeded(2);
    let kinds: Vec<char> = (0..200).map(|_| generate_npc(10, &mut rng).chr).collect();
    assert!(kinds.iter().any(|c| *c != kinds[0]));
    let loot: Vec<char> = (0..200).map(|_| generate_floor_item(12, &mut rng).chr).collect();
    assert!(loot.iter().any(|c| *c != loot[0]));
}

#[test]
fn splatting_walls_spares_the_middle() {
    let mut m = vec![TileType::Floor; 4000];
    feb2::flat_grid::splat_walls(&mut m, &vec![(40, 25), (3, 4), (79, 49)]);
    assert_eq!(m[xy_idx(40, 25)], TileType::Floor);
    assert_eq!(m[xy_idx(3, 4)], TileType::Wall);
    assert_eq!(m[xy_idx(79, 49)], TileType::Wall);
    assert_eq!(m.iter().filter(|t| **t == TileType::Wall).count(), 2);
}

#[test]
fn picks_follow_table_order() {
    assert_eq!(feb2::tables::npc_for_pick(10, 0).chr, 'I');
    assert_eq!(feb2::tables::npc_for_pick(10, 3).chr, 'M');
    assert_eq!(feb2::tables::npc_for_pick(25, 1).chr, 'D');
    assert_eq!(feb2::tables::item_for_pick(0, 0).chr, '-');
    assert_eq!(feb2::tables::item_for_pick(0, 1).chr, '!');
    let sword = feb2::tables::item_for_pick(7, 0);
    assert_eq!((sword.chr, sword.color), ('/', Color::Sky));
    assert!(sword.equipment.is_some());
}

#[test]
fn one_cell_population() {
    let mut m = new_walls(4, 4);
    m[1][1] = Tile::empty();
    let npc = feb2::tables::npc_for_pick(1, 0);
    let item = feb2::tables::item_for_pick(1, 0);
    let mut objs: Vec<Object> = vec![];
    feb2::populate::populate_cell(1, 1, &m, &mut objs, 1, 9, Some(npc), 0, None);
    assert_eq!(objs.len(), 1);
    assert_eq!((objs[0].chr, objs[0].x, objs[0].y), ('I', 1, 1));
    let mut objs2: Vec<Object> = vec![];
    feb2::populate::populate_cell(1, 1, &m, &mut objs2, 1, 10, None, 9, Some(item));
    assert_eq!(objs2.len(), 1);
    assert_eq!((objs2[0].chr, objs2[0].x, objs2[0].y), ('-', 1, 1));
    let mut objs3: Vec<Object> = vec![];
    feb2::populate::populate_cell(2, 2, &m, &mut objs3, 1, 0, None, 0, None);
    assert!(objs3.is_empty());
}

#[test]
fn populated_cells_hold_one_object() {
    let mut m = new_walls(30, 30);
    for x in 1..29 {
        for y in 1..29 {
            m[x][y] = Tile::empty();
        }
    }
    for seed in 0..20 {
        let mut rng = seeded(seed);
        let mut objs = vec![];
        place_objects(Rect::new(1, 1, 28, 28), &m, &mut objs, 20, &mut rng);
        for i in 0..objs.len() {
            for j in 0..i {
                assert!(objs[i].pos() != objs[j].pos());
            }
        }
    }
}

#[test]
fn split_single_cell_keeps_terminal_regions() {
    let mut rng = seeded(1);
    let small = Rect::new(0, 0, 10, 8);
    assert_eq!(feb2::partition::split_single_cell(small, &mut rng), (small, None));
    let (a, b) = feb2::partition::split_single_cell(Rect::new(0, 0, 20, 15), &mut rng);
    let b = b.unwrap();
    assert!(b.x0 == a.xf + 1 || b.y0 == a.yf + 1);
}
