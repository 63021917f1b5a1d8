use vstd::prelude::*;

verus! {

/// How many parts of a world unit positions count in: a millionth, so that a
/// speed in world units per second times a time in microseconds is an exact
/// distance.
pub const UNIT: i64 = 1_000_000;

/// Side length of a tile: sixteen world units.
pub const TILE_SIZE: i64 = 16 * UNIT;

/// How fast the player slides, in world units per second.
pub const PLAYER_SPEED: u16 = 100;

/// How far from the origin, along either axis, an entity may stand before a
/// step: room enough that no step can leave the range of `i64`.
pub const POSITION_LIMIT: i64 = 0x4000_0000_0000_0000;

/// A point, in millionths of a world unit (see `UNIT`); `y` grows upwards.
#[derive(Clone, Copy, Debug, PartialEq, Eq, Structural)]
pub struct Position {
    pub x: i64,
    pub y: i64,
}

/// Where the player is heading.
#[derive(Clone, Copy, Debug, PartialEq, Eq, Structural)]
pub enum Direction {
    Stopped,
    Up,
    Down,
    Left,
    Right,
}

/// How the player moves: speed in world units per second, and heading.
#[derive(Clone, Copy, Debug, PartialEq, Eq, Structural)]
pub struct Moveable {
    pub speed: u16,
    pub direction: Direction,
}

/// What the player is doing, for sound and animation.
#[derive(Clone, Copy, Debug, PartialEq, Eq, Structural)]
pub enum PlayerState {
    Idle,
    Moving,
    Teleport,
    CollectPotion,
}

/// The side of the second box that the first one struck.
#[derive(Clone, Copy, Debug, PartialEq, Eq, Structural)]
pub enum Collision {
    Left,
    Right,
    Top,
    Bottom,
    Inside,
}

/// The keys released during one step.
#[derive(Clone, Copy, Debug, PartialEq, Eq, Structural)]
pub struct Input {
    pub up: bool,
    pub down: bool,
    pub left: bool,
    pub right: bool,
    pub teleport: bool,
}

/// The player token: where it is and how it moves.
#[derive(Clone, Copy, Debug, PartialEq, Eq, Structural)]
pub struct Player {
    pub position: Position,
    pub moveable: Moveable,
}

/// What a step reports: the last player state it asked for, and whether the
/// last potion of the level is gone.
#[derive(Clone, Copy, Debug, PartialEq, Eq, Structural)]
pub struct StepOutcome {
    pub signal: Option<PlayerState>,
    pub level_cleared: bool,
}

/// The entities of a level in play.
pub struct World {
    pub player: Option<Player>,
    pub teleporter: Option<Position>,
    pub walls: Vec<Position>,
    pub potions: Vec<Position>,
    pub player_state: PlayerState,
}

/// A world as a mathematical value.
pub struct WorldView {
    pub player: Option<Player>,
    pub teleporter: Option<Position>,
    pub walls: Seq<Position>,
    pub potions: Seq<Position>,
    pub player_state: PlayerState,
}

impl View for World {
    type V = WorldView;

    open spec fn view(&self) -> WorldView {
        WorldView {
            player: self.player,
            teleporter: self.teleporter,
            walls: self.walls@,
            potions: self.potions@,
            player_state: self.player_state,
        }
    }
}

/// The absolute value of `v`.
pub open spec fn abs(v: int) -> int {
    if v < 0 {
        -v
    } else {
        v
    }
}

/// `p` lies within `POSITION_LIMIT` of the origin along both axes.
pub open spec fn within_limit(p: Position) -> bool {
    -POSITION_LIMIT <= p.x <= POSITION_LIMIT && -POSITION_LIMIT <= p.y <= POSITION_LIMIT
}

/// Two tile-sized boxes centred on `a` and `b` intersect.
pub open spec fn overlaps(a: Position, b: Position) -> bool {
    abs(b.x - a.x) < TILE_SIZE && abs(b.y - a.y) < TILE_SIZE
}

/// The side of the tile at `b` that the tile at `a` struck, when they
/// overlap. Along an axis the side is the one `a` comes from, or `Inside`
/// where the centres line up; of the two axes the one with the shallower
/// penetration wins, and the horizontal one on a tie.
pub open spec fn collision(a: Position, b: Position) -> Option<Collision> {
    if !overlaps(a, b) {
        None
    } else {
        let dx = b.x - a.x;
        let dy = b.y - a.y;
        if dy != 0 && (dx == 0 || abs(dx) < abs(dy)) {
            Some(if dy > 0 { Collision::Bottom } else { Collision::Top })
        } else {
            Some(
                if dx > 0 {
                    Collision::Left
                } else if dx < 0 {
                    Collision::Right
                } else {
                    Collision::Inside
                },
            )
        }
    }
}

/// The side of a wall that a player heading `d` runs into.
pub open spec fn face_struck(d: Direction) -> Option<Collision> {
    match d {
        Direction::Left => Some(Collision::Right),
        Direction::Right => Some(Collision::Left),
        Direction::Up => Some(Collision::Bottom),
        Direction::Down => Some(Collision::Top),
        Direction::Stopped => None,
    }
}

/// A player at `p` heading `d` has run into `wall`.
pub open spec fn hits(p: Position, d: Direction, wall: Position) -> bool {
    face_struck(d) is Some && collision(p, wall) == face_struck(d)
}

/// Where a player at `p` heading `d` stops against `wall`: flush with the
/// face it struck.
pub open spec fn snapped(p: Position, d: Direction, wall: Position) -> Position {
    match d {
        Direction::Left => Position { x: (wall.x + TILE_SIZE) as i64, y: p.y },
        Direction::Right => Position { x: (wall.x - TILE_SIZE) as i64, y: p.y },
        Direction::Up => Position { x: p.x, y: (wall.y - TILE_SIZE) as i64 },
        Direction::Down => Position { x: p.x, y: (wall.y + TILE_SIZE) as i64 },
        Direction::Stopped => p,
    }
}

/// The first of `walls` that a player at `p` heading `d` has run into.
pub open spec fn first_hit(p: Position, d: Direction, walls: Seq<Position>) -> Option<int>
    decreases walls.len(),
{
    if walls.len() == 0 {
        None
    } else {
        match first_hit(p, d, walls.drop_last()) {
            Some(i) => Some(i),
            None => if hits(p, d, walls.last()) {
                Some(walls.len() - 1)
            } else {
                None
            },
        }
    }
}

/// The potions that a player at `p` does not touch, in order.
pub open spec fn remaining(p: Position, potions: Seq<Position>) -> Seq<Position>
    decreases potions.len(),
{
    if potions.len() == 0 {
        seq![]
    } else {
        let rest = remaining(p, potions.drop_last());
        if overlaps(p, potions.last()) {
            rest
        } else {
            rest.push(potions.last())
        }
    }
}

/// The heading that the released keys ask for; of several, the last of up,
/// down, left, right.
pub open spec fn requested_direction(input: Input) -> Direction {
    if input.right {
        Direction::Right
    } else if input.left {
        Direction::Left
    } else if input.down {
        Direction::Down
    } else if input.up {
        Direction::Up
    } else {
        Direction::Stopped
    }
}

/// Distance covered at `speed` world units per second in `elapsed_us`
/// microseconds, in millionths of a world unit: exactly their product.
pub open spec fn movement_amount(speed: u16, elapsed_us: u32) -> int {
    speed as int * elapsed_us as int
}

/// `p` displaced by `amount` along heading `d`.
pub open spec fn moved(p: Position, d: Direction, amount: int) -> Position {
    match d {
        Direction::Up => Position { x: p.x, y: (p.y + amount) as i64 },
        Direction::Down => Position { x: p.x, y: (p.y - amount) as i64 },
        Direction::Left => Position { x: (p.x - amount) as i64, y: p.y },
        Direction::Right => Position { x: (p.x + amount) as i64, y: p.y },
        Direction::Stopped => p,
    }
}

/// `w` with `p` as its player.
pub open spec fn with_player(w: WorldView, p: Player) -> WorldView {
    WorldView {
        player: Some(p),
        teleporter: w.teleporter,
        walls: w.walls,
        potions: w.potions,
        player_state: w.player_state,
    }
}

/// Reading the keys, which is done only while the player stands still (no
/// key counts while it slides): the teleport key swaps player and
/// teleporter; otherwise a heading key starts the player moving. Without a
/// player or a teleporter nothing happens.
pub open spec fn controls(w: WorldView, input: Input) -> (WorldView, Option<PlayerState>) {
    match (w.player, w.teleporter) {
        (Some(p), Some(t)) => {
            let d = requested_direction(input);
            if p.moveable.direction != Direction::Stopped {
                (w, None)
            } else if input.teleport {
                (
                    WorldView {
                        player: Some(
                            Player {
                                position: t,
                                moveable: Moveable { speed: 0, direction: Direction::Stopped },
                            },
                        ),
                        teleporter: Some(p.position),
                        walls: w.walls,
                        potions: w.potions,
                        player_state: w.player_state,
                    },
                    Some(PlayerState::Teleport),
                )
            } else if d != Direction::Stopped {
                (
                    with_player(
                        w,
                        Player {
                            position: p.position,
                            moveable: Moveable { speed: PLAYER_SPEED, direction: d },
                        },
                    ),
                    Some(PlayerState::Moving),
                )
            } else {
                (w, None)
            }
        },
        _ => (w, None),
    }
}

/// Sliding the player along its heading for `elapsed_us` microseconds.
pub open spec fn integrate(w: WorldView, elapsed_us: u32) -> WorldView {
    match w.player {
        Some(p) => with_player(
            w,
            Player {
                position: moved(
                    p.position,
                    p.moveable.direction,
                    movement_amount(p.moveable.speed, elapsed_us),
                ),
                moveable: p.moveable,
            },
        ),
        None => w,
    }
}

/// Stopping the player flush against the first wall it ran into; true when
/// it did run into one.
pub open spec fn wall_check(w: WorldView) -> (WorldView, bool) {
    match w.player {
        Some(p) => match first_hit(p.position, p.moveable.direction, w.walls) {
            Some(i) => (
                with_player(
                    w,
                    Player {
                        position: snapped(p.position, p.moveable.direction, w.walls[i]),
                        moveable: Moveable { speed: 0, direction: Direction::Stopped },
                    },
                ),
                true,
            ),
            None => (w, false),
        },
        None => (w, false),
    }
}

/// Taking every potion the player touches: the new world, whether any was
/// taken, and whether none is left.
pub open spec fn potion_check(w: WorldView) -> (WorldView, bool, bool) {
    match w.player {
        Some(p) => {
            let rest = remaining(p.position, w.potions);
            (
                WorldView {
                    player: w.player,
                    teleporter: w.teleporter,
                    walls: w.walls,
                    potions: rest,
                    player_state: w.player_state,
                },
                rest.len() < w.potions.len(),
                rest.len() == 0,
            )
        },
        None => (w, false, false),
    }
}

/// Of two requests for a player state, the one made last.
pub open spec fn later(a: Option<PlayerState>, b: Option<PlayerState>) -> Option<PlayerState> {
    if b is Some {
        b
    } else {
        a
    }
}

/// The state the player rests in after one was requested: a teleport is over
/// as soon as it is made.
pub open spec fn settle(s: PlayerState) -> PlayerState {
    if s == PlayerState::Teleport {
        PlayerState::Idle
    } else {
        s
    }
}

/// One simulation step: keys, then sliding, then walls, then potions.
pub open spec fn step_result(w: WorldView, input: Input, elapsed_us: u32) -> (
    WorldView,
    StepOutcome,
) {
    let (w1, keys) = controls(w, input);
    let w2 = integrate(w1, elapsed_us);
    let (w3, stopped) = wall_check(w2);
    let (w4, taken, cleared) = potion_check(w3);
    let signal = later(
        later(keys, if stopped { Some(PlayerState::Idle) } else { None }),
        if taken { Some(PlayerState::CollectPotion) } else { None },
    );
    (
        WorldView {
            player: w4.player,
            teleporter: w4.teleporter,
            walls: w4.walls,
            potions: w4.potions,
            player_state: match signal {
                Some(s) => settle(s),
                None => w.player_state,
            },
        },
        StepOutcome { signal, level_cleared: cleared },
    )
}

/// No key released.
pub open spec fn no_input() -> Input {
    Input { up: false, down: false, left: false, right: false, teleport: false }
}

/// The world after one step without input for each of `elapsed`, in order.
pub open spec fn idle_run(w: WorldView, elapsed: Seq<u32>) -> WorldView
    decreases elapsed.len(),
{
    if elapsed.len() == 0 {
        w
    } else {
        step_result(idle_run(w, elapsed.drop_last()), no_input(), elapsed.last()).0
    }
}

/// Distance between `p` and `q` along the axis of heading `d`.
pub open spec fn axis_distance(p: Position, q: Position, d: Direction) -> int {
    match d {
        Direction::Left | Direction::Right => abs(p.x - q.x),
        _ => abs(p.y - q.y),
    }
}

/// The side of the tile at `b` that the tile at `a` struck, if they overlap.
pub fn collide(a: Position, b: Position) -> (r: Option<Collision>)
    ensures
        r == collision(a, b),
{
    let dx: i128 = b.x as i128 - a.x as i128;
    let dy: i128 = b.y as i128 - a.y as i128;
    let adx: i128 = if dx < 0 {
        -dx
    } else {
        dx
    };
    let ady: i128 = if dy < 0 {
        -dy
    } else {
        dy
    };
    let size: i128 = TILE_SIZE as i128;
    if adx >= size || ady >= size {
        None
    } else if dy != 0 && (dx == 0 || adx < ady) {
        Some(
            if dy > 0 {
                Collision::Bottom
            } else {
                Collision::Top
            },
        )
    } else if dx > 0 {
        Some(Collision::Left)
    } else if dx < 0 {
        Some(Collision::Right)
    } else {
        Some(Collision::Inside)
    }
}

/// Two tile-sized boxes centred on `a` and `b` intersect.
pub fn overlap(a: Position, b: Position) -> (r: bool)
    ensures
        r == overlaps(a, b),
{
    let c = collide(a, b);
    c.is_some()
}

/// `p` lies within `POSITION_LIMIT` of the origin along both axes.
fn near(p: Position) -> (b: bool)
    ensures
        b == within_limit(p),
{
    -POSITION_LIMIT <= p.x && p.x <= POSITION_LIMIT && -POSITION_LIMIT <= p.y && p.y
        <= POSITION_LIMIT
}

/// A prefix's first hit is the first hit of the whole sequence.
proof fn lemma_first_hit_prefix(p: Position, d: Direction, walls: Seq<Position>, k: int)
    requires
        0 <= k <= walls.len(),
        first_hit(p, d, walls.take(k)) is Some,
    ensures
        first_hit(p, d, walls) == first_hit(p, d, walls.take(k)),
    decreases walls.len() - k,
{
    if k == walls.len() {
        assert(walls.take(k) =~= walls);
    } else {
        let front = walls.drop_last();
        assert(front.take(k) =~= walls.take(k));
        lemma_first_hit_prefix(p, d, front, k);
    }
}

impl Moveable {
    /// Standing still.
    pub fn new() -> (r: Moveable)
        ensures
            r.speed == 0,
            r.direction == Direction::Stopped,
    {
        Moveable { speed: 0, direction: Direction::Stopped }
    }
}

impl World {
    /// The player, the teleporter and every wall lie within `POSITION_LIMIT`.
    pub open spec fn wf(&self) -> bool {
        &&& (self.player matches Some(p) ==> within_limit(p.position))
        &&& (self.teleporter matches Some(t) ==> within_limit(t))
        &&& forall|i: int| 0 <= i < self.walls@.len() ==> within_limit(#[trigger] self.walls@[i])
    }

    /// Whether `wf` holds, so that a step may be taken.
    pub fn within_limits(&self) -> (r: bool)
        ensures
            r == self.wf(),
    {
        if let Some(p) = self.player {
            if !near(p.position) {
                return false;
            }
        }
        if let Some(t) = self.teleporter {
            if !near(t) {
                return false;
            }
        }
        let mut i: usize = 0;
        while i < self.walls.len()
            invariant
                i <= self.walls@.len(),
                forall|j: int| 0 <= j < i ==> within_limit(#[trigger] self.walls@[j]),
            decreases self.walls.len() - i,
        {
            if !near(self.walls[i]) {
                return false;
            }
            i = i + 1;
        }
        true
    }

    /// Reads the keys released this step; see `controls`.
    pub fn movement_controlls(&mut self, input: Input) -> (r: Option<PlayerState>)
        ensures
            (final(self)@, r) == controls(old(self)@, input),
    {
        let (p, t) = match (self.player, self.teleporter) {
            (Some(p), Some(t)) => (p, t),
            _ => {
                return None;
            },
        };
        if p.moveable.direction != Direction::Stopped {
            return None;
        }
        let mut d = Direction::Stopped;
        if input.up {
            d = Direction::Up;
        }
        if input.down {
            d = Direction::Down;
        }
        if input.left {
            d = Direction::Left;
        }
        if input.right {
            d = Direction::Right;
        }
        if input.teleport {
            self.player = Some(
                Player {
                    position: t,
                    moveable: Moveable { speed: 0, direction: Direction::Stopped },
                },
            );
            self.teleporter = Some(p.position);
            Some(PlayerState::Teleport)
        } else if d != Direction::Stopped {
            self.player = Some(
                Player {
                    position: p.position,
                    moveable: Moveable { speed: PLAYER_SPEED, direction: d },
                },
            );
            Some(PlayerState::Moving)
        } else {
            None
        }
    }

    /// Slides the player along its heading for `elapsed_us` microseconds.
    pub fn update_position(&mut self, elapsed_us: u32)
        requires
            old(self).wf(),
        ensures
            final(self)@ == integrate(old(self)@, elapsed_us),
    {
        let p = match self.player {
            Some(p) => p,
            None => {
                return ;
            },
        };
        proof {
            assert(p.moveable.speed as u64 * elapsed_us as u64 <= 0xffff * 0xffff_ffffu64)
                by (nonlinear_arith)
                requires
                    p.moveable.speed <= 0xffffu16,
                    elapsed_us <= 0xffff_ffffu32,
            ;
        }
        let amount: u64 = p.moveable.speed as u64 * elapsed_us as u64;
        let step: i64 = amount as i64;
        let pos = p.position;
        let position = match p.moveable.direction {
            Direction::Up => Position { x: pos.x, y: pos.y + step },
            Direction::Down => Position { x: pos.x, y: pos.y - step },
            Direction::Left => Position { x: pos.x - step, y: pos.y },
            Direction::Right => Position { x: pos.x + step, y: pos.y },
            Direction::Stopped => pos,
        };
        self.player = Some(Player { position, moveable: p.moveable });
    }

    /// Stops the player flush against the first wall it ran into; true when
    /// it did.
    pub fn check_wall(&mut self) -> (r: bool)
        requires
            forall|i: int|
                0 <= i < old(self).walls@.len() ==> within_limit(#[trigger] old(self).walls@[i]),
        ensures
            (final(self)@, r) == wall_check(old(self)@),
    {
        let p = match self.player {
            Some(p) => p,
            None => {
                return false;
            },
        };
        let d = p.moveable.direction;
        let face = match d {
            Direction::Left => Collision::Right,
            Direction::Right => Collision::Left,
            Direction::Up => Collision::Bottom,
            Direction::Down => Collision::Top,
            Direction::Stopped => {
                proof {
                    assert(first_hit(p.position, d, self.walls@) is None) by {
                        lemma_no_hit_when_stopped(p.position, self.walls@);
                    }
                }
                return false;
            },
        };
        let mut i: usize = 0;
        while i < self.walls.len()
            invariant
                self@ == old(self)@,
                self.player == Some(p),
                d == p.moveable.direction,
                face_struck(d) == Some(face),
                i <= self.walls@.len(),
                first_hit(p.position, d, self.walls@.take(i as int)) is None,
                forall|j: int| 0 <= j < self.walls@.len() ==> within_limit(#[trigger] self.walls@[j]),
            decreases self.walls.len() - i,
        {
            let wall = self.walls[i];
            let c = collide(p.position, wall);
            proof {
                let ws = self.walls@;
                assert(ws.take(i + 1).drop_last() =~= ws.take(i as int));
                assert(ws.take(i + 1).last() == wall);
            }
            if c == Some(face) {
                proof {
                    let ws = self.walls@;
                    assert(first_hit(p.position, d, ws.take(i + 1)) == Some(i as int));
                    lemma_first_hit_prefix(p.position, d, ws, i + 1);
                }
                let position = match d {
                    Direction::Left => Position { x: wall.x + TILE_SIZE, y: p.position.y },
                    Direction::Right => Position { x: wall.x - TILE_SIZE, y: p.position.y },
                    Direction::Up => Position { x: p.position.x, y: wall.y - TILE_SIZE },
                    _ => Position { x: p.position.x, y: wall.y + TILE_SIZE },
                };
                self.player = Some(
                    Player { position, moveable: Moveable { speed: 0, direction: Direction::Stopped } },
                );
                return true;
            }
            i = i + 1;
        }
        proof {
            assert(self.walls@.take(i as int) =~= self.walls@);
        }
        false
    }

    /// Takes every potion the player touches: whether any was taken, and
    /// whether none is left.
    pub fn check_potion(&mut self) -> (r: (bool, bool))
        ensures
            ({
                let (v, taken, cleared) = potion_check(old(self)@);
                final(self)@ == v && r == (taken, cleared)
            }),
    {
        let p = match self.player {
            Some(p) => p,
            None => {
                return (false, false);
            },
        };
        let mut kept: Vec<Position> = Vec::new();
        let mut i: usize = 0;
        while i < self.potions.len()
            invariant
                i <= self.potions@.len(),
                kept@ == remaining(p.position, self.potions@.take(i as int)),
                kept@.len() <= i,
            decreases self.potions.len() - i,
        {
            let q = self.potions[i];
            proof {
                let ps = self.potions@;
                assert(ps.take(i + 1).drop_last() =~= ps.take(i as int));
                assert(ps.take(i + 1).last() == q);
            }
            if !overlap(p.position, q) {
                kept.push(q);
            }
            i = i + 1;
        }
        proof {
            assert(self.potions@.take(i as int) =~= self.potions@);
        }
        let taken = kept.len() < self.potions.len();
        let cleared = kept.len() == 0;
        self.potions = kept;
        (taken, cleared)
    }

    /// One simulation step of `elapsed_us` microseconds with the keys
    /// released in it: keys, then sliding, then walls, then potions.
    pub fn step(&mut self, input: Input, elapsed_us: u32) -> (r: StepOutcome)
        requires
            old(self).wf(),
        ensures
            (final(self)@, r) == step_result(old(self)@, input, elapsed_us),
    {
        let keys = self.movement_controlls(input);
        self.update_position(elapsed_us);
        let stopped = self.check_wall();
        let (taken, cleared) = self.check_potion();
        let mut signal = keys;
        if stopped {
            signal = Some(PlayerState::Idle);
        }
        if taken {
            signal = Some(PlayerState::CollectPotion);
        }
        match signal {
            Some(s) => {
                self.player_state = if s == PlayerState::Teleport {
                    PlayerState::Idle
                } else {
                    s
                };
            },
            None => {},
        }
        StepOutcome { signal, level_cleared: cleared }
    }
}

/// A player that stands still runs into nothing.
proof fn lemma_no_hit_when_stopped(p: Position, walls: Seq<Position>)
    ensures
        first_hit(p, Direction::Stopped, walls) is None,
    decreases walls.len(),
{
    if walls.len() > 0 {
        lemma_no_hit_when_stopped(p, walls.drop_last());
    }
}

/// The first hit, when there is one, is a wall that the player ran into.
proof fn lemma_first_hit_valid(p: Position, d: Direction, walls: Seq<Position>)
    ensures
        first_hit(p, d, walls) matches Some(i) ==> 0 <= i < walls.len() && hits(p, d, walls[i]),
    decreases walls.len(),
{
    if walls.len() > 0 {
        lemma_first_hit_valid(p, d, walls.drop_last());
    }
}

/// Without input, a player that stands still stays where it is, however many
/// steps of whatever length go by.
pub proof fn lemma_still_player_stays(w: WorldView, elapsed: Seq<u32>)
    requires
        w.player matches Some(p) ==> p.moveable.direction == Direction::Stopped,
    ensures
        idle_run(w, elapsed).player == w.player,
    decreases elapsed.len(),
{
    if elapsed.len() > 0 {
        lemma_still_player_stays(w, elapsed.drop_last());
        let v = idle_run(w, elapsed.drop_last());
        if let Some(p) = v.player {
            lemma_no_hit_when_stopped(p.position, v.walls);
        }
    }
}

/// A player stopped by a wall stands exactly one tile from that wall along
/// the axis it was moving on, however deep it had gone in.
pub proof fn lemma_wall_snap_exact(w: WorldView)
    requires
        forall|i: int| 0 <= i < w.walls.len() ==> within_limit(#[trigger] w.walls[i]),
    ensures
        ({
            let (after, stopped) = wall_check(w);
            stopped ==> {
                &&& w.player matches Some(p)
                &&& first_hit(p.position, p.moveable.direction, w.walls) matches Some(i)
                &&& 0 <= i < w.walls.len()
                &&& after.player matches Some(q)
                &&& axis_distance(q.position, w.walls[i], p.moveable.direction) == TILE_SIZE
                &&& q.moveable.direction == Direction::Stopped
            }
        }),
{
    if let Some(p) = w.player {
        lemma_first_hit_valid(p.position, p.moveable.direction, w.walls);
    }
}

/// Teleporting twice in a row, starting from standing still, puts the player
/// and the teleporter back where they were.
pub proof fn lemma_teleport_twice(w: WorldView, a: Input, b: Input, e1: u32, e2: u32)
    requires
        w.player matches Some(p) && p.moveable.direction == Direction::Stopped,
        w.teleporter is Some,
        a.teleport,
        b.teleport,
    ensures
        ({
            let once = step_result(w, a, e1).0;
            let twice = step_result(once, b, e2).0;
            &&& once.player.unwrap().position == w.teleporter.unwrap()
            &&& once.teleporter == Some(w.player.unwrap().position)
            &&& twice.player.unwrap().position == w.player.unwrap().position
            &&& twice.teleporter == w.teleporter
        }),
{
    let once = step_result(w, a, e1).0;
    lemma_no_hit_when_stopped(w.teleporter.unwrap(), w.walls);
    lemma_no_hit_when_stopped(w.player.unwrap().position, once.walls);
}

/// `wall` lies straight ahead of a player at `p` heading `d`, on the line it
/// moves along.
pub open spec fn ahead(p: Position, d: Direction, wall: Position) -> bool {
    match d {
        Direction::Right => wall.y == p.y && p.x < wall.x,
        Direction::Left => wall.y == p.y && p.x > wall.x,
        Direction::Up => wall.x == p.x && p.y < wall.y,
        Direction::Down => wall.x == p.x && p.y > wall.y,
        Direction::Stopped => false,
    }
}

/// The one wall that was hit is the first one hit.
proof fn lemma_first_hit_only(p: Position, d: Direction, walls: Seq<Position>, i: int)
    requires
        0 <= i < walls.len(),
        hits(p, d, walls[i]),
        forall|j: int| 0 <= j < walls.len() && j != i ==> !hits(p, d, #[trigger] walls[j]),
    ensures
        first_hit(p, d, walls) == Some(i),
    decreases walls.len(),
{
    let front = walls.drop_last();
    lemma_first_hit_valid(p, d, front);
    if i < walls.len() - 1 {
        assert forall|j: int| 0 <= j < front.len() && j != i implies !hits(
            p,
            d,
            #[trigger] front[j],
        ) by {
            assert(front[j] == walls[j]);
        }
        lemma_first_hit_only(p, d, front, i);
    } else {
        if let Some(k) = first_hit(p, d, front) {
            assert(front[k] == walls[k]);
        }
    }
}

/// A player that overlaps a single wall, straight ahead of it, is stopped
/// flush against that wall: exactly one tile from it along the axis it was
/// moving on and unmoved across it, however deep it had gone in.
pub proof fn lemma_wall_snap_lone_wall(w: WorldView, i: int)
    requires
        w.player is Some,
        forall|j: int| 0 <= j < w.walls.len() ==> within_limit(#[trigger] w.walls[j]),
        0 <= i < w.walls.len(),
        overlaps(w.player.unwrap().position, w.walls[i]),
        ahead(w.player.unwrap().position, w.player.unwrap().moveable.direction, w.walls[i]),
        forall|j: int|
            0 <= j < w.walls.len() && j != i ==> !overlaps(
                w.player.unwrap().position,
                #[trigger] w.walls[j],
            ),
    ensures
        ({
            let p = w.player.unwrap();
            let wall = w.walls[i];
            let (after, stopped) = wall_check(w);
            &&& stopped
            &&& after.player == Some(
                Player {
                    position: snapped(p.position, p.moveable.direction, wall),
                    moveable: Moveable { speed: 0, direction: Direction::Stopped },
                },
            )
            &&& axis_distance(after.player.unwrap().position, wall, p.moveable.direction)
                == TILE_SIZE
            &&& match p.moveable.direction {
                Direction::Left | Direction::Right => after.player.unwrap().position.y
                    == p.position.y,
                _ => after.player.unwrap().position.x == p.position.x,
            }
        }),
{
    let p = w.player.unwrap();
    let d = p.moveable.direction;
    assert(hits(p.position, d, w.walls[i]));
    assert forall|j: int| 0 <= j < w.walls.len() && j != i implies !hits(
        p.position,
        d,
        #[trigger] w.walls[j],
    ) by {
        assert(!overlaps(p.position, w.walls[j]));
    }
    lemma_first_hit_only(p.position, d, w.walls, i);
}

/// A step clears the level exactly when a player is there and no potion is
/// left after it; potions are only ever taken away.
pub proof fn lemma_level_clear(w: WorldView, input: Input, elapsed_us: u32)
    ensures
        ({
            let (after, out) = step_result(w, input, elapsed_us);
            &&& out.level_cleared <==> (w.player is Some && after.potions.len() == 0)
            &&& after.potions.len() <= w.potions.len()
            &&& w.potions.len() - after.potions.len() > 0 ==> out.signal == Some(
                PlayerState::CollectPotion,
            )
        }),
{
    let (w1, keys) = controls(w, input);
    let w2 = integrate(w1, elapsed_us);
    let (w3, stopped) = wall_check(w2);
    if let Some(p) = w3.player {
        lemma_remaining_len(p.position, w3.potions);
    }
}

/// Taking potions never adds any.
pub proof fn lemma_remaining_len(p: Position, potions: Seq<Position>)
    ensures
        remaining(p, potions).len() <= potions.len(),
    decreases potions.len(),
{
    if potions.len() > 0 {
        lemma_remaining_len(p, potions.drop_last());
    }
}

} // verus!
