use crate::objects::{Color, Object};
use vstd::prelude::*;

verus! {

/// Experience needed for the first level-up.
pub const LEVEL_UP_BASE: i32 = 200;

/// Experience added to the requirement by each level.
pub const LEVEL_UP_FACTOR: i32 = 150;

/// Experience that a character of level `lvl` needs to reach the next level.
pub fn xp_to_level_up(lvl: i32) -> (r: i32)
    requires
        i32::MIN <= (lvl + 1) * LEVEL_UP_FACTOR,
        LEVEL_UP_BASE + (lvl + 1) * LEVEL_UP_FACTOR <= i32::MAX,
    ensures
        r == LEVEL_UP_BASE + (lvl + 1) * LEVEL_UP_FACTOR,
{
    LEVEL_UP_BASE + (lvl + 1) * LEVEL_UP_FACTOR
}

/// Brings the player back to life at level 0, at `(0, 0)`, with base stats and an empty inventory.
pub fn reincarnate_reset(player: &mut Object)
    ensures
        final(player).alive,
        final(player).chr == '@',
        final(player).color == Color::White,
        final(player).level == 0,
        final(player).x == 0 && final(player).y == 0,
        final(player).name == old(player).name,
        final(player).blocks == old(player).blocks,
        final(player).ai == old(player).ai,
        final(player).item == old(player).item,
        final(player).equipment == old(player).equipment,
        final(player).always_visible == old(player).always_visible,
        final(player).charges == old(player).charges,
        final(player).fighter is Some == old(player).fighter is Some,
        old(player).fighter is Some ==> {
            let f = final(player).fighter->0;
            let g = old(player).fighter->0;
            &&& f.hp == 100 && f.base_max_hp == 100 && f.base_defense == 2 && f.base_power == 3 && f.xp == 0
            &&& f.inventory@.len() == 0
            &&& f.karma == g.karma && f.on_death == g.on_death
        },
{
    player.alive = true;
    player.chr = '@';
    player.color = Color::White;
    player.level = 0;
    player.x = 0;
    player.y = 0;
    match &mut player.fighter {
        Some(fighter) => {
            fighter.hp = 100;
            fighter.base_max_hp = 100;
            fighter.base_defense = 2;
            fighter.base_power = 3;
            fighter.xp = 0;
            fighter.inventory = Vec::new();
        },
        None => {},
    }
}

} // verus!
