use vstd::prelude::*;
use crate::components::Position;
use crate::map::GridMap;

verus! {

/// Apply one directional input to the player's position: the move happens
/// exactly when the destination tile is on the grid and is not a wall;
/// otherwise the position is left unchanged for this frame.
pub fn try_move_player(map: &GridMap, delta_x: i32, delta_y: i32, pos: &mut Position)
    requires
        map.wf(),
        -1 <= delta_x <= 1,
        -1 <= delta_y <= 1,
        map.in_bounds(old(pos).x as int, old(pos).y as int),
    ensures
        map.in_bounds(final(pos).x as int, final(pos).y as int),
        ({
            let nx = old(pos).x + delta_x;
            let ny = old(pos).y + delta_y;
            if map.in_bounds(nx, ny) && !map.is_wall_at(nx, ny) {
                final(pos).x == nx && final(pos).y == ny
            } else {
                *final(pos) == *old(pos)
            }
        }),
{
    let nx = pos.x + delta_x;
    let ny = pos.y + delta_y;
    if 0 <= nx && nx < map.width && 0 <= ny && ny < map.height {
        let idx = map.xy_idx(nx, ny);
        if !map.is_opaque(idx) {
            pos.x = nx;
            pos.y = ny;
        }
    }
}

} // verus!
