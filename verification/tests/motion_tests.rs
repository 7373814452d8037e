use rustcaster::level::{level_one, parse_level};
use rustcaster::motion::{corners_collide, hit_wall_type, ray_step, RayCell, MAX_RAY_STEPS};

#[test]
fn box_inside_a_corridor_is_free() {
    let l = level_one();
    assert!(!corners_collide(&l, 1, 1, 1, 1));
    assert!(!corners_collide(&l, 1, 2, 1, 1));
}

#[test]
fn box_touching_a_wall_collides() {
    let l = level_one();
    assert!(corners_collide(&l, 0, 1, 1, 1));
    assert!(corners_collide(&l, 1, 1, 0, 1));
    assert!(corners_collide(&l, 3, 4, 1, 1));
}

#[test]
fn box_outside_the_map_collides() {
    let l = parse_level("open", &["...", "...", "..."]);
    assert!(!corners_collide(&l, 0, 2, 0, 2));
    assert!(corners_collide(&l, 2, 3, 1, 1));
    assert!(corners_collide(&l, -1, 0, 1, 1));
}

#[test]
fn ray_walks_until_a_wall() {
    let l = level_one();
    let mut cell = RayCell { x: 1, y: 1, steps: 0 };
    let mut stop = false;
    let mut n = 0;
    while !stop {
        let (c, s) = ray_step(&l, cell, 1, 1, false);
        cell = c;
        stop = s;
        n += 1;
    }
    assert_eq!((cell.x, cell.y, cell.steps), (4, 1, 3));
    assert_eq!(n, 3);
    assert_eq!(hit_wall_type(&l, cell.x, cell.y), 1);
}

#[test]
fn ray_step_moves_along_the_chosen_axis() {
    let l = level_one();
    let (c, stop) = ray_step(&l, RayCell { x: 4, y: 5, steps: 7 }, -1, 1, true);
    assert_eq!((c.x, c.y, c.steps), (4, 6, 8));
    assert!(stop);
    let (c, stop) = ray_step(&l, RayCell { x: 2, y: 1, steps: 0 }, -1, -1, false);
    assert_eq!((c.x, c.y, c.steps), (1, 1, 1));
    assert!(!stop);
}

#[test]
fn ray_gives_up_after_the_step_limit() {
    let l = parse_level("open", &["...", "...", "..."]);
    let (c, stop) = ray_step(&l, RayCell { x: 0, y: 0, steps: MAX_RAY_STEPS - 1 }, 1, 1, false);
    assert_eq!(c.steps, 4000);
    assert!(!stop);
    let (c, stop) = ray_step(&l, RayCell { x: 0, y: 0, steps: MAX_RAY_STEPS }, 1, 1, true);
    assert_eq!(c.steps, 4001);
    assert!(stop);
}

#[test]
fn hit_wall_type_is_at_least_one() {
    let l = parse_level("mix", &[".234"]);
    assert_eq!(hit_wall_type(&l, 0, 0), 1);
    assert_eq!(hit_wall_type(&l, 1, 0), 2);
    assert_eq!(hit_wall_type(&l, 3, 0), 4);
    assert_eq!(hit_wall_type(&l, 9, 0), 1);
}
