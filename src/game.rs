use vstd::prelude::*;
use crate::levels::{Level, Progress, LEVEL_COUNT};
use crate::movement::{lemma_level_clear, step_result, Input, WorldView};

verus! {

/// How long the splash screen shows, in microseconds.
pub const SPLASH_US: u32 = 3_000_000;

/// How long the card naming a level shows before play, in microseconds.
pub const LEVEL_CARD_US: u32 = 3_000_000;

/// The screen the game is on.
#[derive(Clone, Copy, Debug, PartialEq, Eq, Structural)]
pub enum GameState {
    Splash,
    Menu,
    GameSetup,
    GamePlay,
    GameCompleted,
}

/// Something that moves the game from one screen to another.
#[derive(Clone, Copy, Debug, PartialEq, Eq, Structural)]
pub enum GameEvent {
    /// The timer of the splash screen or of the level card ran out.
    TimerElapsed,
    /// Play was chosen on the menu.
    Play,
    /// The player quit the level.
    Quit,
    /// The player asked to play the level again.
    Restart,
    /// The last potion of the level was taken.
    LevelCleared,
    /// The player acknowledged the end of the game.
    Acknowledge,
}

/// A timer that runs down once.
#[derive(Clone, Copy, Debug, PartialEq, Eq, Structural)]
pub struct Countdown {
    pub remaining_us: u32,
}

impl Countdown {
    /// A timer of `duration_us` microseconds.
    pub fn new(duration_us: u32) -> (r: Countdown)
        ensures
            r.remaining_us == duration_us,
    {
        Countdown { remaining_us: duration_us }
    }

    /// Lets `elapsed_us` microseconds pass; true once the timer has run out.
    pub fn tick(&mut self, elapsed_us: u32) -> (finished: bool)
        ensures
            final(self).remaining_us == if old(self).remaining_us > elapsed_us {
                old(self).remaining_us - elapsed_us
            } else {
                0
            },
            finished == (final(self).remaining_us == 0),
    {
        if self.remaining_us > elapsed_us {
            self.remaining_us = self.remaining_us - elapsed_us;
        } else {
            self.remaining_us = 0;
        }
        self.remaining_us == 0
    }
}

/// Where `event` takes the game from screen `state` on level `number`: the
/// new screen and level. Entering the menu goes back to the first level;
/// clearing the last level completes the game.
pub open spec fn game_next(state: GameState, number: u8, event: GameEvent) -> (GameState, u8) {
    match (state, event) {
        (GameState::Splash, GameEvent::TimerElapsed) => (GameState::Menu, 1),
        (GameState::Menu, GameEvent::Play) => (GameState::GameSetup, number),
        (GameState::GameSetup, GameEvent::TimerElapsed) => (GameState::GamePlay, number),
        (GameState::GamePlay, GameEvent::Quit) => (GameState::Menu, 1),
        (GameState::GamePlay, GameEvent::Restart) => (GameState::GameSetup, number),
        (GameState::GamePlay, GameEvent::LevelCleared) => if number < LEVEL_COUNT {
            (GameState::GameSetup, (number + 1) as u8)
        } else {
            (GameState::GameCompleted, number)
        },
        (GameState::GameCompleted, GameEvent::Acknowledge) => (GameState::Menu, 1),
        _ => (state, number),
    }
}

/// The screen, the level, and the timer of the screen showing.
pub struct Game {
    pub state: GameState,
    pub level: Level,
    pub timer: Countdown,
}

impl Game {
    /// The level counter names a level of the game.
    pub open spec fn wf(&self) -> bool {
        self.level.wf()
    }

    /// A game starting on the splash screen, at the first level.
    pub fn new() -> (r: Game)
        ensures
            r.wf(),
            r.state == GameState::Splash,
            r.level.number_spec() == 1,
            r.timer.remaining_us == SPLASH_US,
    {
        Game { state: GameState::Splash, level: Level::new(), timer: Countdown::new(SPLASH_US) }
    }

    /// Moves the game on by `event`; see `game_next`. Entering the level set-up
    /// starts the level card's timer.
    pub fn handle(&mut self, event: GameEvent)
        requires
            old(self).wf(),
        ensures
            final(self).wf(),
            (final(self).state, final(self).level.number_spec()) == game_next(
                old(self).state,
                old(self).level.number_spec(),
                event,
            ),
            final(self).state == GameState::GameSetup && old(self).state != GameState::GameSetup
                ==> final(self).timer.remaining_us == LEVEL_CARD_US,
            !(final(self).state == GameState::GameSetup && old(self).state
                != GameState::GameSetup) ==> final(self).timer == old(self).timer,
    {
        match (self.state, event) {
            (GameState::Splash, GameEvent::TimerElapsed) => {
                self.state = GameState::Menu;
                self.level.reset();
            },
            (GameState::Menu, GameEvent::Play) => {
                self.state = GameState::GameSetup;
                self.timer = Countdown::new(LEVEL_CARD_US);
            },
            (GameState::GameSetup, GameEvent::TimerElapsed) => {
                self.state = GameState::GamePlay;
            },
            (GameState::GamePlay, GameEvent::Quit) => {
                self.state = GameState::Menu;
                self.level.reset();
            },
            (GameState::GamePlay, GameEvent::Restart) => {
                self.state = GameState::GameSetup;
                self.timer = Countdown::new(LEVEL_CARD_US);
            },
            (GameState::GamePlay, GameEvent::LevelCleared) => {
                match self.level.advance() {
                    Progress::Next(_) => {
                        self.state = GameState::GameSetup;
                        self.timer = Countdown::new(LEVEL_CARD_US);
                    },
                    Progress::Completed => {
                        self.state = GameState::GameCompleted;
                    },
                }
            },
            (GameState::GameCompleted, GameEvent::Acknowledge) => {
                self.state = GameState::Menu;
                self.level.reset();
            },
            _ => {},
        }
    }

    /// Lets `elapsed_us` microseconds pass on a screen that shows for a set
    /// time (the splash screen, the level card); when its timer runs out the
    /// game moves on. True when it did.
    pub fn tick(&mut self, elapsed_us: u32) -> (moved_on: bool)
        requires
            old(self).wf(),
        ensures
            final(self).wf(),
            old(self).state != GameState::Splash && old(self).state != GameState::GameSetup
                ==> !moved_on && final(self).state == old(self).state && final(self).level
                == old(self).level && final(self).timer == old(self).timer,
            old(self).state == GameState::Splash || old(self).state == GameState::GameSetup ==> {
                let left = if old(self).timer.remaining_us > elapsed_us {
                    old(self).timer.remaining_us - elapsed_us
                } else {
                    0
                };
                &&& moved_on == (left == 0)
                &&& final(self).timer.remaining_us == left
                &&& (final(self).state, final(self).level.number_spec()) == if left == 0 {
                    game_next(
                        old(self).state,
                        old(self).level.number_spec(),
                        GameEvent::TimerElapsed,
                    )
                } else {
                    (old(self).state, old(self).level.number_spec())
                }
            },
    {
        if self.state != GameState::Splash && self.state != GameState::GameSetup {
            return false;
        }
        let finished = self.timer.tick(elapsed_us);
        if finished {
            self.handle(GameEvent::TimerElapsed);
        }
        finished
    }
}

/// Clearing the last level completes the game instead of naming a level
/// past the last; entering the menu from any other screen goes back to the
/// first level.
pub proof fn lemma_level_progression(state: GameState, number: u8, event: GameEvent)
    requires
        1 <= number <= LEVEL_COUNT,
    ensures
        state == GameState::GamePlay && event == GameEvent::LevelCleared && number == LEVEL_COUNT
            ==> game_next(state, number, event) == (GameState::GameCompleted, number),
        game_next(state, number, event).0 == GameState::Menu && state != GameState::Menu
            ==> game_next(state, number, event).1 == 1,
        game_next(state, number, event).0 != GameState::GameCompleted ==> 1 <= game_next(
            state,
            number,
            event,
        ).1 <= LEVEL_COUNT,
{
}

/// Steps of play from screen `state` on level `number` with world `w`, in
/// order: a step runs only while the game is in play, and one that clears the
/// level moves the game on. The final screen, level and world, and how many
/// steps moved the game on.
pub open spec fn play(state: GameState, number: u8, w: WorldView, steps: Seq<(Input, u32)>) -> (
    GameState,
    u8,
    WorldView,
    nat,
)
    decreases steps.len(),
{
    if steps.len() == 0 {
        (state, number, w, 0)
    } else {
        let (s, n, v, k) = play(state, number, w, steps.drop_last());
        if s == GameState::GamePlay {
            let (after, out) = step_result(v, steps.last().0, steps.last().1);
            if out.level_cleared {
                let (s2, n2) = game_next(s, n, GameEvent::LevelCleared);
                (s2, n2, after, k + 1)
            } else {
                (s, n, after, k)
            }
        } else {
            (s, n, v, k)
        }
    }
}

/// On a level with potions, play moves on because the level is cleared at
/// most once, and exactly when every potion has been taken: until then the
/// game stays in play on the same level; then it moves on as clearing the
/// level does (to the set-up of the next level, or after the last level to
/// the end of the game).
pub proof fn lemma_level_cleared_once(number: u8, w: WorldView, steps: Seq<(Input, u32)>)
    requires
        1 <= number <= LEVEL_COUNT,
        w.player is Some,
        w.potions.len() > 0,
    ensures
        ({
            let (s, n, v, k) = play(GameState::GamePlay, number, w, steps);
            &&& k <= 1
            &&& k == 1 <==> v.potions.len() == 0
            &&& k == 0 ==> s == GameState::GamePlay && n == number && v.player is Some
            &&& k == 1 ==> (s, n) == game_next(GameState::GamePlay, number, GameEvent::LevelCleared)
        }),
    decreases steps.len(),
{
    if steps.len() > 0 {
        lemma_level_cleared_once(number, w, steps.drop_last());
        let (s, n, v, k) = play(GameState::GamePlay, number, w, steps.drop_last());
        if k == 0 {
            lemma_player_stays(v, steps.last().0, steps.last().1);
            lemma_level_clear(v, steps.last().0, steps.last().1);
        }
    }
}

/// A step keeps the player in the world.
proof fn lemma_player_stays(w: WorldView, input: Input, elapsed_us: u32)
    requires
        w.player is Some,
    ensures
        step_result(w, input, elapsed_us).0.player is Some,
{
}

} // verus!
