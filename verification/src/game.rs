//! The flow of a game session: the welcome screen with its level choice, a
//! round of play with the collectible orb and the exit, and the success
//! screen.  The host loop feeds in key presses and what its floating-point
//! world computed (a shot on target, the player's cell, whether the particle
//! burst has faded) and performs the returned action.

use vstd::prelude::*;

use crate::level::{level_one, level_one_rows, level_two, level_two_rows, Level};
use crate::rng::{scramble, xorshift, Rng};

verus! {

/// Which screen the game shows.
#[derive(PartialEq, Eq, Structural, Clone, Copy)]
pub enum GameState {
    Welcome,
    Playing,
    Success,
}

/// One of the two built-in levels.
#[derive(PartialEq, Eq, Structural, Clone, Copy)]
pub enum LevelId {
    One,
    Two,
}

/// The other level.
pub open spec fn other(id: LevelId) -> LevelId {
    match id {
        LevelId::One => LevelId::Two,
        LevelId::Two => LevelId::One,
    }
}

/// Keys pressed during one frame on the welcome screen.
pub struct MenuKeys {
    pub key1: bool,
    pub key2: bool,
    pub left: bool,
    pub right: bool,
    pub enter: bool,
    pub escape: bool,
}

/// What the host has to do after a menu frame.
#[derive(PartialEq, Eq, Structural, Clone, Copy)]
pub enum MenuAction {
    /// Nothing beyond drawing the screen.
    Stay,
    /// A round has (re)started: put the player on the start cell.
    Started,
    /// Leave the program.
    Quit,
}

/// A game session.
pub struct Game {
    pub state: GameState,
    pub selected: LevelId,
    pub current: LevelId,
    pub level_one: Level,
    pub level_two: Level,
    pub score: u32,
    pub orb_alive: bool,
    pub orb: (i32, i32),
    pub rng: Rng,
}

impl Game {
    /// The level with the given id.
    pub open spec fn level_of(&self, id: LevelId) -> Level {
        match id {
            LevelId::One => self.level_one,
            LevelId::Two => self.level_two,
        }
    }

    /// The level being played (or last played).
    pub open spec fn level_spec(&self) -> Level {
        self.level_of(self.current)
    }

    /// Both levels are well formed and have at least one walkable cell.
    pub open spec fn wf(&self) -> bool {
        &&& self.level_one.wf()
        &&& self.level_two.wf()
        &&& self.level_one.floor_cells@.len() > 0
        &&& self.level_two.floor_cells@.len() > 0
    }

    /// The state right after (re)starting the current level: score 0, the
    /// orb alive on the level's default orb cell, playing.
    pub open spec fn fresh_round(&self, prior: Game) -> bool {
        &&& self.state == GameState::Playing
        &&& self.score == 0
        &&& self.orb_alive
        &&& self.orb == self.level_spec().orb_default_cell_spec()
        &&& self.rng == prior.rng
    }

    /// A new session on the welcome screen, with level one selected and
    /// loaded, its orb alive on its default cell, score 0, and the random
    /// generator seeded with `seed`.
    pub fn new(seed: u64) -> (g: Game)
        ensures
            g.wf(),
            g.level_one.parsed_from("Nivel 1 - Catacumbas", level_one_rows(), 13),
            g.level_two.parsed_from("Nivel 2 - El Laberinto", level_two_rows(), 17),
            g.state == GameState::Welcome,
            g.selected == LevelId::One,
            g.current == LevelId::One,
            g.score == 0,
            g.orb_alive,
            g.orb == g.level_one.orb_default_cell_spec(),
            g.rng@ == seed ^ crate::rng::SEED_MIX,
    {
        let one = level_one();
        let two = level_two();
        let orb = one.orb_default_cell();
        Game {
            state: GameState::Welcome,
            selected: LevelId::One,
            current: LevelId::One,
            level_one: one,
            level_two: two,
            score: 0,
            orb_alive: true,
            orb,
            rng: Rng::new(seed),
        }
    }

    /// The level being played.
    pub fn level(&self) -> (l: &Level)
        ensures
            *l == self.level_spec(),
    {
        match self.current {
            LevelId::One => &self.level_one,
            LevelId::Two => &self.level_two,
        }
    }

    /// (Re)starts the current level.
    fn start_round(&mut self)
        requires
            old(self).wf(),
        ensures
            final(self).wf(),
            final(self).fresh_round(*old(self)),
            final(self).selected == old(self).selected,
            final(self).current == old(self).current,
            final(self).level_one == old(self).level_one,
            final(self).level_two == old(self).level_two,
    {
        let orb = self.level().orb_default_cell();
        self.orb = orb;
        self.orb_alive = true;
        self.score = 0;
        self.state = GameState::Playing;
    }

    /// One frame of the welcome screen.  `1` selects level one, `2` level
    /// two, left or right switches to the other level (applied in that
    /// order); enter starts the selected level; escape quits.
    pub fn welcome_frame(&mut self, keys: MenuKeys) -> (a: MenuAction)
        requires
            old(self).wf(),
            old(self).state == GameState::Welcome,
        ensures
            final(self).wf(),
            final(self).level_one == old(self).level_one,
            final(self).level_two == old(self).level_two,
            final(self).selected == {
                let s1 = if keys.key1 {
                    LevelId::One
                } else {
                    old(self).selected
                };
                let s2 = if keys.key2 {
                    LevelId::Two
                } else {
                    s1
                };
                if keys.left || keys.right {
                    other(s2)
                } else {
                    s2
                }
            },
            keys.enter ==> final(self).current == final(self).selected && final(self).fresh_round(
                *old(self),
            ),
            !keys.enter ==> final(self).state == GameState::Welcome && final(self).current == old(
                self,
            ).current && final(self).score == old(self).score && final(self).orb_alive == old(
                self,
            ).orb_alive && final(self).orb == old(self).orb && final(self).rng == old(self).rng,
            a == (if keys.escape {
                MenuAction::Quit
            } else if keys.enter {
                MenuAction::Started
            } else {
                MenuAction::Stay
            }),
    {
        if keys.key1 {
            self.selected = LevelId::One;
        }
        if keys.key2 {
            self.selected = LevelId::Two;
        }
        if keys.left || keys.right {
            self.selected = match self.selected {
                LevelId::One => LevelId::Two,
                LevelId::Two => LevelId::One,
            };
        }
        if keys.enter {
            self.current = self.selected;
            self.start_round();
        }
        if keys.escape {
            MenuAction::Quit
        } else if keys.enter {
            MenuAction::Started
        } else {
            MenuAction::Stay
        }
    }

    /// Whether pressing fire this frame shoots: only at a living orb.
    pub fn shot_fired(&self, fire: bool) -> (b: bool)
        ensures
            b == (fire && self.orb_alive),
    {
        fire && self.orb_alive
    }

    /// A shot hit the orb: one more point, and the orb bursts.
    pub fn register_hit(&mut self)
        requires
            old(self).orb_alive,
            old(self).score < u32::MAX,
        ensures
            final(self).score == old(self).score + 1,
            !final(self).orb_alive,
            final(self).orb == old(self).orb,
            final(self).state == old(self).state,
            final(self).selected == old(self).selected,
            final(self).current == old(self).current,
            final(self).level_one == old(self).level_one,
            final(self).level_two == old(self).level_two,
            final(self).rng == old(self).rng,
    {
        self.score = self.score + 1;
        self.orb_alive = false;
    }

    /// Once the orb has burst and its particles are gone, it reappears on a
    /// pseudo-randomly chosen walkable cell of the level.
    pub fn respawn_orb(&mut self, particles_gone: bool)
        requires
            old(self).wf(),
        ensures
            final(self).wf(),
            final(self).state == old(self).state,
            final(self).selected == old(self).selected,
            final(self).current == old(self).current,
            final(self).level_one == old(self).level_one,
            final(self).level_two == old(self).level_two,
            final(self).score == old(self).score,
            !old(self).orb_alive && particles_gone ==> {
                let cells = old(self).level_spec().floor_cells@;
                let i = (scramble(xorshift(old(self).rng@)) as usize) % (cells.len() as usize);
                &&& final(self).orb_alive
                &&& final(self).rng@ == xorshift(old(self).rng@)
                &&& final(self).orb == cells[i as int]
                &&& old(self).level_spec().walkable(final(self).orb)
            },
            !(!old(self).orb_alive && particles_gone) ==> final(self).orb_alive == old(
                self,
            ).orb_alive && final(self).orb == old(self).orb && final(self).rng == old(self).rng,
    {
        if !self.orb_alive && particles_gone {
            let len = self.level().floor_cells.len();
            let idx = self.rng.gen_index(len);
            let cell = self.level().floor_cells[idx];
            self.orb = cell;
            self.orb_alive = true;
        }
    }

    /// The end of a playing frame: standing on the exit cell completes the
    /// level, and escape returns to the welcome screen (even right after
    /// completing it).  Returns whether the exit was reached.
    pub fn finish_frame(&mut self, player_cell: (i32, i32), escape: bool) -> (reached: bool)
        requires
            old(self).state == GameState::Playing,
        ensures
            reached == (player_cell == old(self).level_spec().exit),
            final(self).state == (if escape {
                GameState::Welcome
            } else if reached {
                GameState::Success
            } else {
                GameState::Playing
            }),
            final(self).selected == old(self).selected,
            final(self).current == old(self).current,
            final(self).level_one == old(self).level_one,
            final(self).level_two == old(self).level_two,
            final(self).score == old(self).score,
            final(self).orb_alive == old(self).orb_alive,
            final(self).orb == old(self).orb,
            final(self).rng == old(self).rng,
    {
        let exit = self.level().exit;
        let reached = player_cell.0 == exit.0 && player_cell.1 == exit.1;
        if reached {
            self.state = GameState::Success;
        }
        if escape {
            self.state = GameState::Welcome;
        }
        reached
    }

    /// One frame of the success screen: enter goes back to the welcome
    /// screen, `R` restarts the level just completed (applied after enter),
    /// and escape quits.
    pub fn success_frame(&mut self, enter: bool, restart: bool, escape: bool) -> (a: MenuAction)
        requires
            old(self).wf(),
            old(self).state == GameState::Success,
        ensures
            final(self).wf(),
            final(self).selected == old(self).selected,
            final(self).current == old(self).current,
            final(self).level_one == old(self).level_one,
            final(self).level_two == old(self).level_two,
            restart ==> final(self).fresh_round(*old(self)),
            !restart ==> final(self).score == old(self).score && final(self).orb_alive == old(
                self,
            ).orb_alive && final(self).orb == old(self).orb && final(self).rng == old(self).rng
                && final(self).state == (if enter {
                GameState::Welcome
            } else {
                GameState::Success
            }),
            a == (if escape {
                MenuAction::Quit
            } else if restart {
                MenuAction::Started
            } else {
                MenuAction::Stay
            }),
    {
        if enter {
            self.state = GameState::Welcome;
        }
        if restart {
            self.start_round();
        }
        if escape {
            MenuAction::Quit
        } else if restart {
            MenuAction::Started
        } else {
            MenuAction::Stay
        }
    }
}

} // verus!
