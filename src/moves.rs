use crate::map::{grid_of, in_grid, is_grid, TileMap};
use crate::objects::Object;
use crate::populate::{blocked_at, is_blocked};
use vstd::prelude::*;

verus! {

/// What a player's command amounted to.
#[derive(Clone, Copy, Debug, PartialEq, Eq, Structural)]
pub enum PlayerAction {
    TookTurn,
    DidntTakeTurn,
    Exit,
}

/// Moves object `id` by `(dx, dy)` when the destination is not blocked; returns whether it moved.
pub fn move_by(id: usize, dx: i32, dy: i32, map: &TileMap, objects: &mut Vec<Object>) -> (moved: bool)
    requires
        id < old(objects)@.len(),
        is_grid(grid_of(map)),
        in_grid(grid_of(map), old(objects)@[id as int].x + dx, old(objects)@[id as int].y + dy),
        old(objects)@[id as int].x + dx <= i32::MAX,
        old(objects)@[id as int].y + dy <= i32::MAX,
    ensures
        moved == !blocked_at(
            grid_of(map),
            old(objects)@,
            old(objects)@[id as int].x + dx,
            old(objects)@[id as int].y + dy,
        ),
        moved ==> final(objects)@ == old(objects)@.update(
            id as int,
            Object { x: (old(objects)@[id as int].x + dx) as i32, y: (old(objects)@[id as int].y + dy) as i32, ..old(objects)@[id as int] },
        ),
        !moved ==> final(objects)@ == old(objects)@,
{
    let (x, y) = objects[id].pos();
    if !is_blocked(x + dx, y + dy, map, objects.as_slice()) {
        objects[id].set_pos(x + dx, y + dy);
        return true;
    }
    false
}

} // verus!
