use rustcaster::level::{level_one, level_two, parse_level, Level};

fn walkable(l: &Level, p: (i32, i32)) -> bool {
    !l.is_wall(p.0, p.1)
}

#[test]
fn level_one_layout() {
    let l = level_one();
    assert_eq!(l.name, "Nivel 1 - Catacumbas");
    assert_eq!((l.width, l.height), (13, 13));
    assert_eq!(l.start, (1, 1));
    assert_eq!(l.exit, (10, 11));
    assert_eq!(l.floor_cells.len(), 79);
    assert_eq!(l.floor_cells[0], (1, 1));
    assert_eq!(l.floor_cells[78], (10, 7));
    assert_eq!(l.wall_at(8, 1), 2);
    assert_eq!(l.wall_at(2, 6), 3);
    assert_eq!(l.wall_at(1, 1), 0);
    assert_eq!(l.wall_at(10, 7), 0);
    for p in l.floor_cells.iter() {
        assert!(walkable(&l, *p));
    }
}

#[test]
fn level_two_layout() {
    let l = level_two();
    assert_eq!(l.name, "Nivel 2 - El Laberinto");
    assert_eq!((l.width, l.height), (17, 13));
    assert_eq!(l.start, (1, 1));
    assert_eq!(l.exit, (15, 11));
    assert_eq!(l.floor_cells.len(), 109);
    assert_eq!(l.floor_cells[108], (6, 9));
    assert_eq!(l.wall_at(0, 0), 2);
    assert_eq!(l.wall_at(8, 0), 4);
    assert_eq!(l.wall_at(16, 1), 3);
    for p in l.floor_cells.iter() {
        assert!(walkable(&l, *p));
    }
}

#[test]
fn outside_the_grid_is_wall_type_one() {
    let l = level_one();
    assert!(l.is_wall(-1, 5));
    assert!(l.is_wall(5, -1));
    assert!(l.is_wall(13, 5));
    assert!(l.is_wall(5, 13));
    assert_eq!(l.wall_at(-1, -1), 1);
    assert_eq!(l.wall_at(i32::MAX, 0), 1);
    assert_eq!(l.wall_at(0, i32::MIN), 1);
}

#[test]
fn is_wall_agrees_with_wall_at() {
    let l = level_two();
    for y in -2..15 {
        for x in -2..19 {
            assert_eq!(l.is_wall(x, y), l.wall_at(x, y) != 0);
            assert!(l.wall_at(x, y) <= 4);
        }
    }
}

#[test]
fn orb_default_cell_of_built_in_levels() {
    assert_eq!(level_one().orb_default_cell(), (5, 1));
    assert_eq!(level_two().orb_default_cell(), (5, 1));
}

#[test]
fn orb_default_cell_falls_back_right_of_start() {
    let l = parse_level("tiny", &["111", "1S1", "111"]);
    assert_eq!(l.floor_cells, vec![(1, 1)]);
    assert_eq!(l.orb_default_cell(), (2, 1));
}

#[test]
fn orb_default_cell_needs_more_than_three_cells() {
    // (3, 0) is exactly 3 away from the start (0, 0); (5, 0) is the first far cell
    let l = parse_level("row", &["S...1."]);
    assert_eq!(l.orb_default_cell(), (5, 0));
    // diagonal: (2, 2) is at squared distance 8, (3, 2) at 13
    let l = parse_level("diag", &["S1111", "11111", "11..1"]);
    assert_eq!(l.orb_default_cell(), (3, 2));
}

#[test]
fn defaults_without_markers() {
    let l = parse_level("plain", &["1111", "1..1", "1111"]);
    assert_eq!(l.start, (1, 1));
    assert_eq!(l.exit, (2, 1));
    assert_eq!(l.floor_cells, vec![(1, 1), (2, 1)]);
}

#[test]
fn last_marker_wins() {
    let l = parse_level("twice", &["S.9S9"]);
    assert_eq!(l.start, (3, 0));
    assert_eq!(l.exit, (4, 0));
    assert_eq!(l.width, 5);
    assert_eq!(l.height, 1);
}

#[test]
fn orb_spawn_listed_twice_unless_last() {
    // the orb cell is already a floor cell; it is appended again, and only
    // a repeat of the last cell collapses
    let l = parse_level("orb_first", &["O.1"]);
    assert_eq!(l.floor_cells, vec![(0, 0), (1, 0), (0, 0)]);
    let l = parse_level("orb_last", &[".1O"]);
    assert_eq!(l.floor_cells, vec![(0, 0), (2, 0)]);
}

#[test]
fn short_rows_are_padded_with_unlisted_floor() {
    let l = parse_level("ragged", &["1111", "1.", "11"]);
    assert_eq!(l.grid, vec![vec![1, 1, 1, 1], vec![1, 0, 0, 0], vec![1, 1, 0, 0]]);
    assert_eq!(l.floor_cells, vec![(1, 1)]);
    assert!(!l.is_wall(3, 2));
}

#[test]
fn any_other_character_is_floor() {
    let l = parse_level("odd", &["1x5#2"]);
    assert_eq!(l.grid, vec![vec![1, 0, 0, 0, 2]]);
    assert_eq!(l.floor_cells, vec![(1, 0), (2, 0), (3, 0)]);
}

#[test]
fn width_counts_bytes_of_first_row() {
    let l = parse_level("wide", &["é1", "1"]);
    assert_eq!(l.width, 3);
    assert_eq!(l.grid, vec![vec![0, 1, 0], vec![1, 0, 0]]);
    assert_eq!(l.floor_cells, vec![(0, 0)]);
}
