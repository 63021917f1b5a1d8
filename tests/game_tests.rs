use potion_dungeon::game::{Countdown, Game, GameEvent, GameState, LEVEL_CARD_US, SPLASH_US};
use potion_dungeon::levels::{Level, Progress, LEVEL_COUNT};
use potion_dungeon::map::{spawn_assets, TileMap};
use potion_dungeon::movement::{Input, World};

fn game_in_play_at(level: u8) -> Game {
    let mut g = Game::new();
    g.handle(GameEvent::TimerElapsed);
    g.handle(GameEvent::Play);
    g.handle(GameEvent::TimerElapsed);
    while g.level.current() < level {
        g.handle(GameEvent::LevelCleared);
        g.handle(GameEvent::TimerElapsed);
    }
    g
}

#[test]
fn level_counter_advances_then_completes() {
    let mut l = Level::new();
    assert_eq!(l.current(), 1);
    for n in 2..=LEVEL_COUNT {
        assert_eq!(l.advance(), Progress::Next(n));
        assert_eq!(l.current(), n);
    }
    assert_eq!(l.advance(), Progress::Completed);
    assert_eq!(l.current(), LEVEL_COUNT);
    l.reset();
    assert_eq!(l.current(), 1);
}

#[test]
fn clearing_the_last_level_completes_the_game() {
    let mut g = game_in_play_at(LEVEL_COUNT);
    assert_eq!(g.state, GameState::GamePlay);
    assert_eq!(g.level.current(), 10);
    g.handle(GameEvent::LevelCleared);
    assert_eq!(g.state, GameState::GameCompleted);
    assert_eq!(g.level.current(), 10);
    g.handle(GameEvent::Acknowledge);
    assert_eq!(g.state, GameState::Menu);
    assert_eq!(g.level.current(), 1);
}

#[test]
fn clearing_a_level_sets_up_the_next_once() {
    let mut g = game_in_play_at(3);
    g.handle(GameEvent::LevelCleared);
    assert_eq!(g.state, GameState::GameSetup);
    assert_eq!(g.level.current(), 4);
    assert_eq!(g.timer.remaining_us, LEVEL_CARD_US);
    g.handle(GameEvent::LevelCleared);
    assert_eq!(g.state, GameState::GameSetup);
    assert_eq!(g.level.current(), 4);
}

#[test]
fn quitting_goes_back_to_the_first_level() {
    let mut g = game_in_play_at(5);
    g.handle(GameEvent::Quit);
    assert_eq!(g.state, GameState::Menu);
    assert_eq!(g.level.current(), 1);
}

#[test]
fn restart_keeps_the_level() {
    let mut g = game_in_play_at(2);
    g.handle(GameEvent::Restart);
    assert_eq!(g.state, GameState::GameSetup);
    assert_eq!(g.level.current(), 2);
}

#[test]
fn events_out_of_place_are_ignored() {
    let mut g = Game::new();
    g.handle(GameEvent::Play);
    g.handle(GameEvent::LevelCleared);
    assert_eq!(g.state, GameState::Splash);
    g.handle(GameEvent::TimerElapsed);
    g.handle(GameEvent::Quit);
    g.handle(GameEvent::TimerElapsed);
    assert_eq!(g.state, GameState::Menu);
}

#[test]
fn timers_move_the_game_on() {
    let mut g = Game::new();
    assert_eq!(g.timer.remaining_us, SPLASH_US);
    assert!(!g.tick(1000000));
    assert_eq!(g.state, GameState::Splash);
    assert!(!g.tick(1999000));
    assert!(g.tick(1000));
    assert_eq!(g.state, GameState::Menu);
    assert!(!g.tick(5000000));
    assert_eq!(g.state, GameState::Menu);
    g.handle(GameEvent::Play);
    assert!(!g.tick(2999000));
    assert!(g.tick(10000));
    assert_eq!(g.state, GameState::GamePlay);
    assert!(!g.tick(10000000));
    assert_eq!(g.state, GameState::GamePlay);
}

#[test]
fn countdown_saturates_at_zero() {
    let mut c = Countdown::new(100);
    assert!(!c.tick(40));
    assert_eq!(c.remaining_us, 60);
    assert!(c.tick(1000));
    assert_eq!(c.remaining_us, 0);
    assert!(c.tick(0));
}

#[test]
fn a_small_level_is_played_to_the_end() {
    let map = TileMap::build("#####\n#p.o#\n#...#\n#t.o#\n#####", 5, 5).unwrap();
    let mut world = spawn_assets(&map);
    assert_eq!(world.potions.len(), 2);
    let mut game = game_in_play_at(1);
    let keys = |down: bool, right: bool| Input { up: false, down, left: false, right, teleport: false };
    let mut cleared = 0;
    let mut play = |world: &mut World, game: &mut Game, input: Input| {
        if game.state == GameState::GamePlay {
            let out = world.step(input, 100_000);
            if out.level_cleared {
                cleared += 1;
                game.handle(GameEvent::LevelCleared);
            }
        }
    };
    play(&mut world, &mut game, keys(false, true));
    for _ in 0..10 {
        play(&mut world, &mut game, keys(false, false));
    }
    assert_eq!(world.potions.len(), 1);
    assert_eq!(game.state, GameState::GamePlay);
    play(&mut world, &mut game, keys(true, false));
    for _ in 0..10 {
        play(&mut world, &mut game, keys(false, false));
    }
    play(&mut world, &mut game, keys(false, true));
    drop(play);
    assert_eq!(cleared, 1);
    assert!(world.potions.is_empty());
    assert_eq!(game.state, GameState::GameSetup);
    assert_eq!(game.level.current(), 2);
}
