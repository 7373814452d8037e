use rustcaster::game::{Game, GameState, LevelId, MenuAction, MenuKeys};

fn keys() -> MenuKeys {
    MenuKeys { key1: false, key2: false, left: false, right: false, enter: false, escape: false }
}

#[test]
fn new_game_waits_on_welcome_screen() {
    let g = Game::new(0);
    assert!(g.state == GameState::Welcome);
    assert!(g.selected == LevelId::One);
    assert!(g.current == LevelId::One);
    assert_eq!(g.score, 0);
    assert!(g.orb_alive);
    assert_eq!(g.orb, (5, 1));
    assert_eq!(g.rng.state(), 0x9E37_79B9_7F4A_7C15);
    assert_eq!(g.level().name, "Nivel 1 - Catacumbas");
}

#[test]
fn level_selection_keys() {
    let mut g = Game::new(1);
    let a = g.welcome_frame(MenuKeys { key2: true, ..keys() });
    assert!(a == MenuAction::Stay);
    assert!(g.selected == LevelId::Two);
    g.welcome_frame(MenuKeys { key1: true, ..keys() });
    assert!(g.selected == LevelId::One);
    g.welcome_frame(MenuKeys { right: true, ..keys() });
    assert!(g.selected == LevelId::Two);
    g.welcome_frame(MenuKeys { left: true, ..keys() });
    assert!(g.selected == LevelId::One);
    // both number keys: two wins, then an arrow flips it back to one
    g.welcome_frame(MenuKeys { key1: true, key2: true, left: true, ..keys() });
    assert!(g.selected == LevelId::One);
    assert!(g.state == GameState::Welcome);
}

#[test]
fn enter_starts_the_selected_level() {
    let mut g = Game::new(1);
    let a = g.welcome_frame(MenuKeys { key2: true, enter: true, ..keys() });
    assert!(a == MenuAction::Started);
    assert!(g.state == GameState::Playing);
    assert!(g.current == LevelId::Two);
    assert_eq!(g.level().name, "Nivel 2 - El Laberinto");
    assert_eq!(g.level().exit, (15, 11));
    assert_eq!(g.score, 0);
    assert!(g.orb_alive);
    assert_eq!(g.orb, (5, 1));
}

#[test]
fn escape_quits_from_menus() {
    let mut g = Game::new(1);
    assert!(g.welcome_frame(MenuKeys { escape: true, ..keys() }) == MenuAction::Quit);
    assert!(g.welcome_frame(MenuKeys { enter: true, escape: true, ..keys() }) == MenuAction::Quit);
    assert!(g.state == GameState::Playing);
}

#[test]
fn shooting_scores_and_the_orb_respawns_on_floor() {
    let mut g = Game::new(0);
    g.welcome_frame(MenuKeys { enter: true, ..keys() });
    assert!(g.shot_fired(true));
    assert!(!g.shot_fired(false));
    g.register_hit();
    assert_eq!(g.score, 1);
    assert!(!g.orb_alive);
    assert!(!g.shot_fired(true));
    // particles still flying: nothing happens
    g.respawn_orb(false);
    assert!(!g.orb_alive);
    g.respawn_orb(true);
    assert!(g.orb_alive);
    // first draw of the generator seeded with 0 is 0x7403d1a28c9a2599; 79 cells
    let idx = (0x7403d1a28c9a2599u64 as usize) % 79;
    assert_eq!(g.orb, g.level().floor_cells[idx]);
    assert!(!g.level().is_wall(g.orb.0, g.orb.1));
    // an alive orb is not moved
    let before = g.orb;
    g.respawn_orb(true);
    assert_eq!(g.orb, before);
}

#[test]
fn reaching_the_exit_completes_the_level() {
    let mut g = Game::new(0);
    g.welcome_frame(MenuKeys { enter: true, ..keys() });
    assert!(!g.finish_frame((1, 1), false));
    assert!(g.state == GameState::Playing);
    assert!(g.finish_frame((10, 11), false));
    assert!(g.state == GameState::Success);
}

#[test]
fn escape_while_playing_returns_to_menu_even_at_the_exit() {
    let mut g = Game::new(0);
    g.welcome_frame(MenuKeys { enter: true, ..keys() });
    assert!(g.finish_frame((10, 11), true));
    assert!(g.state == GameState::Welcome);
    let mut g = Game::new(0);
    g.welcome_frame(MenuKeys { enter: true, ..keys() });
    assert!(!g.finish_frame((2, 1), true));
    assert!(g.state == GameState::Welcome);
}

#[test]
fn success_screen_keys() {
    let mut g = Game::new(0);
    g.welcome_frame(MenuKeys { enter: true, ..keys() });
    g.register_hit();
    g.finish_frame((10, 11), false);
    assert!(g.success_frame(false, false, false) == MenuAction::Stay);
    assert!(g.state == GameState::Success);
    assert_eq!(g.score, 1);
    // restart the same level
    assert!(g.success_frame(false, true, false) == MenuAction::Started);
    assert!(g.state == GameState::Playing);
    assert_eq!(g.score, 0);
    assert!(g.orb_alive);
    assert_eq!(g.orb, (5, 1));
    g.finish_frame((10, 11), false);
    assert!(g.success_frame(true, false, false) == MenuAction::Stay);
    assert!(g.state == GameState::Welcome);
    g.welcome_frame(MenuKeys { enter: true, ..keys() });
    g.finish_frame((10, 11), false);
    // enter and R together: R wins
    assert!(g.success_frame(true, true, false) == MenuAction::Started);
    assert!(g.state == GameState::Playing);
    g.finish_frame((10, 11), false);
    assert!(g.success_frame(false, false, true) == MenuAction::Quit);
}
