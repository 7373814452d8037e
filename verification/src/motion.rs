//! The grid side of movement and ray casting: which corner cells of the
//! player's box are blocked, and how a ray walks from cell to cell.

use vstd::prelude::*;

use crate::level::Level;

verus! {

/// The most cells a ray visits before it gives up.
pub const MAX_RAY_STEPS: u32 = 4000;

/// Whether any of the four cells at the corners of a box is blocked.  The
/// box spans columns `x0` to `x1` and rows `y0` to `y1`; the corners are
/// tested in the order (x0, y0), (x1, y0), (x0, y1), (x1, y1).  A box that
/// does not collide lies inside the map: each corner is an in-bounds floor
/// cell.
pub fn corners_collide(level: &Level, x0: i32, x1: i32, y0: i32, y1: i32) -> (b: bool)
    requires
        level.grid_wf(),
    ensures
        b == (level.blocked(x0 as int, y0 as int) || level.blocked(x1 as int, y0 as int)
            || level.blocked(x0 as int, y1 as int) || level.blocked(x1 as int, y1 as int)),
        !b ==> level.walkable((x0, y0)) && level.walkable((x1, y0)) && level.walkable((x0, y1))
            && level.walkable((x1, y1)),
{
    if level.is_wall(x0, y0) {
        return true;
    }
    if level.is_wall(x1, y0) {
        return true;
    }
    if level.is_wall(x0, y1) {
        return true;
    }
    if level.is_wall(x1, y1) {
        return true;
    }
    false
}

/// The cell a ray is in and how many cells it has entered so far.
pub struct RayCell {
    pub x: i32,
    pub y: i32,
    pub steps: u32,
}

/// One step of a grid ray walk: the ray enters the neighbouring cell in
/// column direction `step_x` (when `along_y` is false) or row direction
/// `step_y` (when it is true), counts the step, and stops once it stands in a
/// blocked cell or has taken more than `MAX_RAY_STEPS` steps.
pub fn ray_step(level: &Level, cell: RayCell, step_x: i32, step_y: i32, along_y: bool) -> (r: (
    RayCell,
    bool,
))
    requires
        level.grid_wf(),
        step_x == 1 || step_x == -1,
        step_y == 1 || step_y == -1,
        cell.steps < u32::MAX,
        !along_y ==> i32::MIN <= cell.x + step_x <= i32::MAX,
        along_y ==> i32::MIN <= cell.y + step_y <= i32::MAX,
    ensures
        !along_y ==> r.0.x == cell.x + step_x && r.0.y == cell.y,
        along_y ==> r.0.y == cell.y + step_y && r.0.x == cell.x,
        r.0.steps == cell.steps + 1,
        r.1 == (level.blocked(r.0.x as int, r.0.y as int) || r.0.steps > MAX_RAY_STEPS),
{
    let mut x = cell.x;
    let mut y = cell.y;
    if along_y {
        y = y + step_y;
    } else {
        x = x + step_x;
    }
    let steps = cell.steps + 1;
    let stop = level.wall_at(x, y) != 0 || steps > MAX_RAY_STEPS;
    (RayCell { x, y, steps }, stop)
}

/// The wall type a ray reports for the cell where it stopped: the cell's
/// wall type, raised to at least 1.
pub fn hit_wall_type(level: &Level, x: i32, y: i32) -> (w: u8)
    requires
        level.grid_wf(),
    ensures
        level.wall_type(x as int, y as int) == 0 ==> w == 1,
        level.wall_type(x as int, y as int) != 0 ==> w == level.wall_type(x as int, y as int),
        1 <= w <= 4,
{
    level.wall_at(x, y).max(1)
}

} // verus!
