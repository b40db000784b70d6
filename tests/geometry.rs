use feb2::carve::{
    carve_corridor, carve_rectangles, carve_room, carve_shape, create_h_tunnel, create_room_ellipse, create_v_tunnel,
    Corner, RoomShape,
};
use feb2::map::{new_walls, Tile, TileMap};
use feb2::partition::{choose_axis, split_cell};
use feb2::rect::Rect;

fn floor_count(map: &TileMap) -> usize {
    map.iter().map(|col| col.iter().filter(|t| !t.blocked).count()).sum()
}

#[test]
fn tile_constructors() {
    let e = Tile::empty();
    assert!(!e.blocked && !e.block_sight && !e.explored);
    let w = Tile::wall();
    assert!(w.blocked && w.block_sight && !w.explored);
}

#[test]
fn rect_center_rounds_down() {
    assert_eq!(Rect::new(0, 0, 10, 4).center(), (5, 2));
    assert_eq!(Rect::new(1, 2, 4, 7).center(), (2, 4));
    assert_eq!(Rect::new(-3, -1, 0, 0).center(), (-2, -1));
}

#[test]
fn rect_with_size_and_intersection() {
    let a = Rect::with_size(20, 15, 10, 15);
    assert_eq!(a, Rect::new(20, 15, 30, 30));
    let b = Rect::with_size(30, 30, 2, 2);
    let c = Rect::with_size(31, 0, 2, 2);
    assert!(a.intersects_with(&b));
    assert!(!a.intersects_with(&c));
}

#[test]
fn new_walls_is_all_wall() {
    let m = new_walls(7, 4);
    assert_eq!(m.len(), 7);
    assert!(m.iter().all(|col| col.len() == 4 && col.iter().all(|t| *t == Tile::wall())));
}

#[test]
fn carve_room_opens_interior_only() {
    let mut m = new_walls(10, 8);
    carve_room(Rect::new(1, 1, 5, 4), &mut m);
    for x in 0..10 {
        for y in 0..8 {
            let inside = (2..=4).contains(&x) && (2..=3).contains(&y);
            assert_eq!(!m[x][y].blocked, inside, "cell {} {}", x, y);
        }
    }
    assert_eq!(floor_count(&m), 6);
}

#[test]
fn carving_twice_equals_carving_once() {
    let part = Rect::new(2, 2, 16, 15);
    let shapes = [
        RoomShape::Ellipse,
        RoomShape::Rectangles { w: 7, h: 6, second: None },
        RoomShape::Rectangles { w: 5, h: 5, second: Some(Corner { x: 12, y: 14 }) },
    ];
    for s in shapes.iter() {
        let mut once = new_walls(20, 20);
        carve_shape(part, *s, &mut once);
        let mut twice = once.clone();
        carve_shape(part, *s, &mut twice);
        assert_eq!(once, twice);
        assert!(floor_count(&once) > 0);
    }
}

#[test]
fn tunnels_in_either_order() {
    let mut a = new_walls(12, 12);
    create_h_tunnel(9, 3, 5, &mut a);
    let mut b = new_walls(12, 12);
    create_h_tunnel(3, 9, 5, &mut b);
    assert_eq!(a, b);
    assert_eq!(floor_count(&a), 7);
    let mut c = new_walls(12, 12);
    create_v_tunnel(8, 2, 4, &mut c);
    assert_eq!(floor_count(&c), 7);
    assert!(!c[4][2].blocked && !c[4][8].blocked && c[4][9].blocked && c[5][5].blocked);
}

#[test]
fn corridor_is_l_shaped() {
    let mut m = new_walls(12, 12);
    carve_corridor((2, 3), (8, 9), true, &mut m);
    assert!(!m[8][3].blocked, "corner of a horizontal-first corridor");
    assert!(m[2][9].blocked);
    assert_eq!(floor_count(&m), 7 + 6);
    let mut v = new_walls(12, 12);
    carve_corridor((2, 3), (8, 9), false, &mut v);
    assert!(!v[2][9].blocked, "corner of a vertical-first corridor");
    assert!(v[8][3].blocked);
}

#[test]
fn small_ellipse_has_no_pillar() {
    let mut m = new_walls(12, 12);
    let part = Rect::new(1, 1, 9, 9);
    create_room_ellipse(part, &mut m);
    assert!(!m[5][5].blocked);
    assert!(m[1][1].blocked && m[9][9].blocked && m[1][5].blocked && m[9][5].blocked);
    assert!(!m[2][5].blocked && !m[5][2].blocked && !m[8][5].blocked);
    for x in 0..12 {
        for y in 0..12 {
            if !m[x][y].blocked {
                assert!(x > 1 && x < 9 && y > 1 && y < 9);
            }
        }
    }
}

#[test]
fn large_ellipse_has_a_pillar() {
    let mut m = new_walls(14, 14);
    let part = Rect::new(1, 1, 11, 11);
    create_room_ellipse(part, &mut m);
    for x in 5..=7 {
        for y in 5..=7 {
            assert!(m[x][y].blocked);
        }
    }
    assert!(!m[4][6].blocked && !m[8][6].blocked && !m[6][4].blocked && !m[6][8].blocked);
}

#[test]
fn two_rectangles_overlap() {
    let mut m = new_walls(20, 20);
    let part = Rect::new(0, 0, 14, 12);
    carve_rectangles(part, 5, 5, Some(Corner { x: 9, y: 8 }), &mut m);
    assert!(!m[6][5].blocked);
    assert!(!m[1][1].blocked && !m[8][7].blocked);
    let mut single = new_walls(20, 20);
    carve_rectangles(part, 5, 5, None, &mut single);
    assert_eq!(floor_count(&single), 16);
    assert!(!single[6][5].blocked && single[1][1].blocked);
}

#[test]
fn axis_choice_rules() {
    assert!(!choose_axis(Rect::new(0, 0, 10, 40), false), "narrow region is cut along y");
    assert!(!choose_axis(Rect::new(0, 0, 12, 40), false), "tall region is cut along y");
    assert!(choose_axis(Rect::new(0, 0, 40, 10), true), "low region is cut along x");
    assert!(choose_axis(Rect::new(0, 0, 40, 12), true), "wide region is cut along x");
    assert!(choose_axis(Rect::new(0, 0, 20, 20), false));
    assert!(!choose_axis(Rect::new(0, 0, 20, 20), true));
}

#[test]
fn split_cell_halves() {
    let c = Rect::new(0, 0, 20, 15);
    assert_eq!(split_cell(c, true, 7), (Rect::new(0, 0, 7, 15), Rect::new(8, 0, 20, 15)));
    assert_eq!(split_cell(c, false, 9), (Rect::new(0, 0, 20, 9), Rect::new(0, 10, 20, 15)));
}
