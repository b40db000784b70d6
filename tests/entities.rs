use feb2::map::{new_walls, Tile};
use feb2::moves::move_by;
use feb2::objects::{Color, DeathCallback, Equipment, Fighter, Item, Object, Slot};
use feb2::player::reincarnate_reset;

fn gear(slot: Slot, equipped: bool, hp: i32, def: i32, pow: i32) -> Object {
    let mut o = Object::new(-1, -1, '/', "gear", Color::Sky, false);
    o.item = Some(Item::Sword);
    o.equipment = Some(Equipment { slot, equipped, max_hp_bonus: hp, defense_bonus: def, power_bonus: pow });
    o
}

fn armed_fighter() -> Fighter {
    let mut f = Fighter::new(30, 2, 5, 0, false);
    f.inventory.push(gear(Slot::Hand, true, 0, 1, 4));
    f.inventory.push(gear(Slot::Head, false, 10, 3, 3));
    f.inventory.push(gear(Slot::Chest, true, 20, 2, 0));
    f
}

#[test]
fn fighter_new_defaults() {
    let f = Fighter::new(40, 1, 2, 7, true);
    assert_eq!((f.hp, f.base_max_hp, f.karma, f.on_death), (40, 40, -1000, DeathCallback::Npc));
    assert!(f.inventory.is_empty());
    assert_eq!(Fighter::new(1, 0, 0, 0, false).on_death, DeathCallback::Player);
}

#[test]
fn equipped_bonuses_add_up() {
    let f = armed_fighter();
    assert_eq!(f.get_all_equipped().len(), 2);
    assert_eq!(f.power(), 9);
    assert_eq!(f.defense(), 5);
    assert_eq!(f.max_hp(), 50);
}

#[test]
fn healing_stops_at_maximum() {
    let mut f = armed_fighter();
    f.heal(5);
    assert_eq!(f.hp, 35);
    f.heal(100);
    assert_eq!(f.hp, 50);
}

#[test]
fn kill_rewards_and_karma() {
    assert_eq!(Fighter::kill_karma(35, 2), -105);
    let mut f = Fighter::new(10, 0, 0, 5, false);
    f.kill_rewards(35, 2);
    assert_eq!((f.xp, f.karma), (40, -1105));
}

#[test]
fn stackable_items() {
    let mut potion = Object::new(1, 1, '!', "healing potion", Color::Violet, false);
    potion.item = Some(Item::HealPot);
    assert!(potion.is_stackable());
    assert!(!gear(Slot::Hand, false, 0, 0, 1).is_stackable());
}

#[test]
fn reset_after_death() {
    let mut p = Object::new(12, 9, '%', "player", Color::DarkRed, true);
    p.level = 4;
    p.fighter = Some(armed_fighter());
    reincarnate_reset(&mut p);
    assert!(p.alive);
    assert_eq!((p.chr, p.color, p.level, p.pos()), ('@', Color::White, 0, (0, 0)));
    let f = p.fighter.unwrap();
    assert_eq!((f.hp, f.base_max_hp, f.base_defense, f.base_power, f.xp), (100, 100, 2, 3, 0));
    assert!(f.inventory.is_empty());
}

#[test]
fn moving_into_floor_and_walls() {
    let mut m = new_walls(6, 6);
    m[2][2] = Tile::empty();
    m[3][2] = Tile::empty();
    m[2][3] = Tile::empty();
    let mut objs = vec![
        Object::new(2, 2, '@', "player", Color::White, true),
        Object::new(2, 3, 'o', "orc", Color::White, true),
    ];
    assert!(!move_by(0, 0, -1, &m, &mut objs));
    assert!(!move_by(0, 0, 1, &m, &mut objs));
    assert_eq!(objs[0].pos(), (2, 2));
    assert!(move_by(0, 1, 0, &m, &mut objs));
    assert_eq!(objs[0].pos(), (3, 2));
}

#[test]
fn equipment_in_a_slot() {
    let inv = vec![
        gear(Slot::Hand, true, 0, 0, 1),
        gear(Slot::Head, true, 0, 1, 0),
        gear(Slot::Hand, false, 0, 0, 2),
        gear(Slot::Hand, true, 0, 0, 3),
    ];
    assert_eq!(feb2::objects::get_equipped_in_slot(Slot::Hand, &inv), Some(vec![0, 3]));
    assert_eq!(feb2::objects::get_equipped_in_slot(Slot::Head, &inv), Some(vec![1]));
    assert_eq!(feb2::objects::get_equipped_in_slot(Slot::Ring, &inv), None);
}
