use potion_dungeon::movement::{
    collide, overlap, Collision, Direction, Input, Moveable, Player, PlayerState, Position,
    World, PLAYER_SPEED, TILE_SIZE, UNIT,
};

/// A position in whole world units.
fn pos(x: i64, y: i64) -> Position {
    Position { x: x * UNIT, y: y * UNIT }
}

/// A position in millionths of a world unit.
fn raw(x: i64, y: i64) -> Position {
    Position { x, y }
}

/// Milliseconds as microseconds.
fn ms(n: u32) -> u32 {
    n * 1000
}

fn keys(up: bool, down: bool, left: bool, right: bool, teleport: bool) -> Input {
    Input { up, down, left, right, teleport }
}

fn nothing() -> Input {
    keys(false, false, false, false, false)
}

fn player_at(p: Position, direction: Direction, speed: u16) -> Player {
    Player { position: p, moveable: Moveable { speed, direction } }
}

fn world(
    player: Option<Player>,
    teleporter: Option<Position>,
    walls: Vec<Position>,
    potions: Vec<Position>,
) -> World {
    World { player, teleporter, walls, potions, player_state: PlayerState::Idle }
}

#[test]
fn moving_right_into_wall_stops_flush() {
    let mut w = world(
        Some(player_at(pos(0, 0), Direction::Right, PLAYER_SPEED)),
        Some(pos(-64, 0)),
        vec![pos(16, 0)],
        vec![pos(-200, -200)],
    );
    let out = w.step(nothing(), ms(150));
    let p = w.player.unwrap();
    assert_eq!(p.position.x, 16 * UNIT - TILE_SIZE);
    assert_eq!(p.position.y, 0);
    assert_eq!(p.moveable.direction, Direction::Stopped);
    assert_eq!(p.moveable.speed, 0);
    assert_eq!(out.signal, Some(PlayerState::Idle));
    assert_eq!(w.player_state, PlayerState::Idle);
    assert!(!out.level_cleared);
}

#[test]
fn wall_snap_does_not_depend_on_depth() {
    for elapsed in [170u32, 250, 300, 310] {
        let mut w = world(
            Some(player_at(pos(0, 0), Direction::Left, PLAYER_SPEED)),
            None,
            vec![pos(-32, 0)],
            vec![],
        );
        w.step(nothing(), ms(elapsed));
        let p = w.player.unwrap();
        assert_eq!(p.position.x, -32 * UNIT + TILE_SIZE);
        assert_eq!(p.moveable.direction, Direction::Stopped);
    }
}

#[test]
fn moving_up_and_down_into_walls() {
    let mut up = world(
        Some(player_at(pos(0, 0), Direction::Up, PLAYER_SPEED)),
        None,
        vec![pos(0, 20)],
        vec![],
    );
    up.step(nothing(), ms(100));
    assert_eq!(up.player.unwrap().position, raw(0, 20 * UNIT - TILE_SIZE));

    let mut down = world(
        Some(player_at(pos(0, 0), Direction::Down, PLAYER_SPEED)),
        None,
        vec![pos(0, -20)],
        vec![],
    );
    down.step(nothing(), ms(100));
    assert_eq!(down.player.unwrap().position, raw(0, -20 * UNIT + TILE_SIZE));
}

#[test]
fn wall_behind_does_not_stop_the_player() {
    let mut w = world(
        Some(player_at(pos(0, 0), Direction::Right, PLAYER_SPEED)),
        None,
        vec![pos(-10, 0)],
        vec![],
    );
    w.step(nothing(), ms(100));
    let p = w.player.unwrap();
    assert_eq!(p.position, pos(10, 0));
    assert_eq!(p.moveable.direction, Direction::Right);
}

#[test]
fn sliding_is_speed_times_time() {
    let mut w = world(
        Some(player_at(pos(5, 7), Direction::Down, PLAYER_SPEED)),
        None,
        vec![],
        vec![],
    );
    w.update_position(ms(250));
    assert_eq!(w.player.unwrap().position, pos(5, 7 - 25));
    w.update_position(ms(16));
    assert_eq!(w.player.unwrap().position, raw(5 * UNIT, (7 - 25) * UNIT - 1_600_000));
    w.update_position(1);
    assert_eq!(w.player.unwrap().position, raw(5 * UNIT, (7 - 25) * UNIT - 1_600_100));
}

#[test]
fn standing_still_without_input_stays_put() {
    let mut w = world(
        Some(player_at(pos(3, 4), Direction::Stopped, 0)),
        Some(pos(50, 50)),
        vec![pos(19, 4), pos(3, 20)],
        vec![pos(100, 100)],
    );
    for elapsed in [0u32, 16, 1000, 4_000_000_000] {
        let out = w.step(nothing(), elapsed);
        assert_eq!(out.signal, None);
        assert_eq!(w.player.unwrap(), player_at(pos(3, 4), Direction::Stopped, 0));
    }
}

#[test]
fn key_starts_movement_only_when_stopped() {
    let mut w = world(
        Some(player_at(pos(0, 0), Direction::Stopped, 0)),
        Some(pos(100, 0)),
        vec![],
        vec![pos(500, 500)],
    );
    let out = w.step(keys(false, false, false, true, false), ms(0));
    assert_eq!(out.signal, Some(PlayerState::Moving));
    assert_eq!(w.player_state, PlayerState::Moving);
    let p = w.player.unwrap();
    assert_eq!(p.moveable.direction, Direction::Right);
    assert_eq!(p.moveable.speed, PLAYER_SPEED);

    let out = w.step(keys(true, false, false, false, false), ms(100));
    assert_eq!(out.signal, None);
    let p = w.player.unwrap();
    assert_eq!(p.moveable.direction, Direction::Right);
    assert_eq!(p.position, pos(10, 0));
}

#[test]
fn last_of_several_keys_wins() {
    let mut w = world(
        Some(player_at(pos(0, 0), Direction::Stopped, 0)),
        Some(pos(100, 0)),
        vec![],
        vec![],
    );
    w.movement_controlls(keys(true, true, true, false, false));
    assert_eq!(w.player.unwrap().moveable.direction, Direction::Left);
}

#[test]
fn controls_need_a_teleporter() {
    let mut w = world(
        Some(player_at(pos(0, 0), Direction::Stopped, 0)),
        None,
        vec![],
        vec![],
    );
    assert_eq!(w.movement_controlls(keys(true, false, false, false, true)), None);
    assert_eq!(w.player.unwrap().moveable.direction, Direction::Stopped);
}

#[test]
fn teleport_swaps_and_twice_restores() {
    let mut w = world(
        Some(player_at(pos(0, 0), Direction::Stopped, 0)),
        Some(pos(48, -32)),
        vec![],
        vec![pos(500, 500)],
    );
    let out = w.step(keys(false, false, false, false, true), ms(16));
    assert_eq!(out.signal, Some(PlayerState::Teleport));
    assert_eq!(w.player_state, PlayerState::Idle);
    assert_eq!(w.player.unwrap().position, pos(48, -32));
    assert_eq!(w.teleporter, Some(pos(0, 0)));
    w.step(keys(false, false, false, false, true), ms(16));
    assert_eq!(w.player.unwrap().position, pos(0, 0));
    assert_eq!(w.teleporter, Some(pos(48, -32)));
}

#[test]
fn keys_are_ignored_while_sliding() {
    let mut w = world(
        Some(player_at(pos(0, 0), Direction::Up, PLAYER_SPEED)),
        Some(pos(48, 0)),
        vec![],
        vec![pos(500, 500)],
    );
    let out = w.step(keys(false, false, true, false, true), ms(100));
    assert_eq!(out.signal, None);
    let p = w.player.unwrap();
    assert_eq!(p.position, pos(0, 10));
    assert_eq!(p.moveable.direction, Direction::Up);
    assert_eq!(p.moveable.speed, PLAYER_SPEED);
    assert_eq!(w.teleporter, Some(pos(48, 0)));
    let mut m = world(
        Some(player_at(pos(0, 0), Direction::Left, PLAYER_SPEED)),
        Some(pos(48, 0)),
        vec![],
        vec![],
    );
    assert_eq!(m.movement_controlls(keys(true, false, false, false, true)), None);
    assert_eq!(m.player.unwrap(), player_at(pos(0, 0), Direction::Left, PLAYER_SPEED));
    assert_eq!(m.teleporter, Some(pos(48, 0)));
}

#[test]
fn potions_clear_the_level_only_when_all_are_taken() {
    let mut w = world(
        Some(player_at(pos(0, 0), Direction::Stopped, 0)),
        Some(pos(-100, 0)),
        vec![pos(80, 0)],
        vec![pos(32, 0), pos(64, 0)],
    );
    let out = w.step(keys(false, false, false, true, false), ms(0));
    assert!(!out.level_cleared);
    let out = w.step(nothing(), ms(200));
    assert_eq!(out.signal, Some(PlayerState::CollectPotion));
    assert!(!out.level_cleared);
    assert_eq!(w.potions, vec![pos(64, 0)]);
    assert_eq!(w.player_state, PlayerState::CollectPotion);
    let out = w.step(nothing(), ms(300));
    assert_eq!(w.player.unwrap().position, pos(50, 0));
    assert_eq!(out.signal, Some(PlayerState::CollectPotion));
    assert!(out.level_cleared);
    assert!(w.potions.is_empty());
}

#[test]
fn check_potion_takes_every_touching_potion() {
    let mut w = world(
        Some(player_at(pos(0, 0), Direction::Stopped, 0)),
        None,
        vec![],
        vec![pos(15, 0), pos(16, 0), pos(-15, 15), pos(0, -16)],
    );
    assert_eq!(w.check_potion(), (true, false));
    assert_eq!(w.potions, vec![pos(16, 0), pos(0, -16)]);
    assert_eq!(w.check_potion(), (false, false));
}

#[test]
fn no_player_means_nothing_happens() {
    let mut w = world(None, Some(pos(0, 0)), vec![pos(16, 0)], vec![]);
    let out = w.step(keys(true, false, false, false, true), ms(100));
    assert_eq!(out.signal, None);
    assert!(!out.level_cleared);
    assert_eq!(w.teleporter, Some(pos(0, 0)));
}

#[test]
fn collision_sides() {
    assert_eq!(collide(pos(0, 0), pos(10, 0)), Some(Collision::Left));
    assert_eq!(collide(pos(0, 0), pos(-10, 0)), Some(Collision::Right));
    assert_eq!(collide(pos(0, 0), pos(0, 10)), Some(Collision::Bottom));
    assert_eq!(collide(pos(0, 0), pos(0, -10)), Some(Collision::Top));
    assert_eq!(collide(pos(0, 0), pos(0, 0)), Some(Collision::Inside));
    assert_eq!(collide(pos(0, 0), pos(10, 12)), Some(Collision::Bottom));
    assert_eq!(collide(pos(0, 0), pos(12, 10)), Some(Collision::Left));
    assert_eq!(collide(pos(0, 0), pos(10, 10)), Some(Collision::Left));
    assert_eq!(collide(pos(0, 0), pos(16, 0)), None);
    assert_eq!(collide(pos(0, 0), pos(0, -16)), None);
    assert!(overlap(raw(i64::MIN, 0), raw(i64::MIN + 15, 15)));
    assert!(!overlap(raw(i64::MIN, 0), raw(i64::MAX, 0)));
}

#[test]
fn new_moveable_is_still() {
    let m = Moveable::new();
    assert_eq!(m.speed, 0);
    assert_eq!(m.direction, Direction::Stopped);
}

#[test]
fn limits_are_checked_before_a_step() {
    let mut w = world(
        Some(player_at(pos(0, 0), Direction::Stopped, 0)),
        Some(pos(10, 10)),
        vec![pos(16, 0)],
        vec![raw(i64::MAX, i64::MIN)],
    );
    assert!(w.within_limits());
    w.walls.push(raw(i64::MAX, 0));
    assert!(!w.within_limits());
    w.walls.pop();
    w.teleporter = Some(raw(0, i64::MIN));
    assert!(!w.within_limits());
}
