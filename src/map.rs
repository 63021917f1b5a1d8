use vstd::prelude::*;
use vstd::string::StrSliceExecFns;
use crate::movement::{Direction, Moveable, Player, PlayerState, Position, World, TILE_SIZE, UNIT};

verus! {

/// Number of tiles across a standard level grid.
pub const MAP_NUM_TILES_WIDE: i32 = 12;

/// Number of tiles down a standard level grid.
pub const MAP_NUM_TILES_HIGH: i32 = 9;

/// Number of cells of a standard level grid.
pub const MAP_NUM_TILES: i32 = 108;

/// Largest grid, in cells, whose tiles can be placed in the world.
pub const MAX_CELLS: usize = 0xffff_ffff;

/// World position of the centre of the top left cell.
pub const GRID_ORIGIN_X: i64 = -90 * UNIT;

/// World position of the centre of the top left cell.
pub const GRID_ORIGIN_Y: i64 = 65 * UNIT;

/// What one cell of a level holds.
#[derive(Clone, Copy, Debug, PartialEq, Eq, Structural)]
pub enum TileType {
    Wall,
    Floor,
    Potion,
    Player,
    Teleport,
}

impl TileType {
    /// The tile that a character of a level description stands for.
    pub fn from_char(c: char) -> (r: TileType)
        ensures
            r == tile_of_char(c),
    {
        if c == '#' {
            TileType::Wall
        } else if c == 'o' {
            TileType::Potion
        } else if c == 'p' {
            TileType::Player
        } else if c == 't' {
            TileType::Teleport
        } else {
            TileType::Floor
        }
    }
}

/// Why a level description could not be turned into a grid.
#[derive(Clone, Copy, Debug, PartialEq, Eq, Structural)]
pub enum MapError {
    /// A row has the wrong length, or there are too many or too few rows.
    MalformedDescriptor,
}

/// A rectangular grid of tiles, stored row by row.
pub struct TileMap {
    pub width: usize,
    pub height: usize,
    pub tiles: Vec<TileType>,
}

/// The tile that a character of a level description stands for.
pub open spec fn tile_of_char(c: char) -> TileType {
    if c == '#' {
        TileType::Wall
    } else if c == 'o' {
        TileType::Potion
    } else if c == 'p' {
        TileType::Player
    } else if c == 't' {
        TileType::Teleport
    } else {
        TileType::Floor
    }
}

/// Splits `s` at its newlines, dropping empty lines: the rows that are
/// complete, and the row still open at the end of `s`.
pub open spec fn split_rows(s: Seq<char>) -> (Seq<Seq<char>>, Seq<char>)
    decreases s.len(),
{
    if s.len() == 0 {
        (seq![], seq![])
    } else {
        let (done, open) = split_rows(s.drop_last());
        if s.last() == '\n' {
            if open.len() == 0 {
                (done, open)
            } else {
                (done.push(open), seq![])
            }
        } else {
            (done, open.push(s.last()))
        }
    }
}

/// The non-empty lines of `s`, in order.
pub open spec fn rows_of(s: Seq<char>) -> Seq<Seq<char>> {
    let (done, open) = split_rows(s);
    if open.len() == 0 {
        done
    } else {
        done.push(open)
    }
}

/// `s` describes a grid of `height` rows of `width` characters each.
pub open spec fn descriptor_fits(s: Seq<char>, width: nat, height: nat) -> bool {
    let rows = rows_of(s);
    &&& rows.len() == height
    &&& forall|i: int| 0 <= i < rows.len() ==> (#[trigger] rows[i]).len() == width
}

/// The rows one after another.
pub open spec fn concat_rows(rows: Seq<Seq<char>>) -> Seq<char>
    decreases rows.len(),
{
    if rows.len() == 0 {
        seq![]
    } else {
        concat_rows(rows.drop_last()) + rows.last()
    }
}

/// The tiles that the characters stand for.
pub open spec fn tiles_of(cs: Seq<char>) -> Seq<TileType> {
    cs.map_values(|c: char| tile_of_char(c))
}

/// The grid that the rows of a description stand for, row by row.
pub open spec fn cells_of(s: Seq<char>) -> Seq<TileType> {
    tiles_of(concat_rows(rows_of(s)))
}

/// Index of cell `(x, y)` of a standard grid, stored row by row.
pub fn map_idx(x: i32, y: i32) -> (r: usize)
    requires
        0 <= x < MAP_NUM_TILES_WIDE,
        0 <= y < MAP_NUM_TILES_HIGH,
    ensures
        r == y * MAP_NUM_TILES_WIDE + x,
{
    ((y * MAP_NUM_TILES_WIDE) + x) as usize
}

/// Concatenating rows of one width puts the character `(x, y)` at
/// `y * width + x`.
pub proof fn lemma_concat_index(rows: Seq<Seq<char>>, width: nat, x: int, y: int)
    requires
        forall|i: int| 0 <= i < rows.len() ==> (#[trigger] rows[i]).len() == width,
        0 <= x < width,
        0 <= y < rows.len(),
    ensures
        concat_rows(rows).len() == rows.len() * width,
        concat_rows(rows)[y * width + x] == rows[y][x],
    decreases rows.len(),
{
    lemma_concat_len(rows, width);
    let front = rows.drop_last();
    lemma_concat_len(front, width);
    if y < rows.len() - 1 {
        lemma_concat_index(front, width, x, y);
        assert(y * width + x < (rows.len() - 1) * width) by (nonlinear_arith)
            requires
                0 <= x < width,
                0 <= y < rows.len() - 1,
        ;
    } else {
        assert((rows.len() - 1) * width + x == y * width + x);
    }
}

/// Concatenating rows of one width gives `rows * width` characters.
pub proof fn lemma_concat_len(rows: Seq<Seq<char>>, width: nat)
    requires
        forall|i: int| 0 <= i < rows.len() ==> (#[trigger] rows[i]).len() == width,
    ensures
        concat_rows(rows).len() == rows.len() * width,
    decreases rows.len(),
{
    if rows.len() > 0 {
        let front = rows.drop_last();
        assert forall|i: int| 0 <= i < front.len() implies (#[trigger] front[i]).len() == width by {
            assert(front[i] == rows[i]);
        }
        lemma_concat_len(front, width);
        assert((rows.len() - 1) * width + width == rows.len() * width) by (nonlinear_arith);
    }
}

/// How many times `c` occurs in `cs`.
pub open spec fn count_char(cs: Seq<char>, c: char) -> nat
    decreases cs.len(),
{
    if cs.len() == 0 {
        0
    } else {
        count_char(cs.drop_last(), c) + if cs.last() == c {
            1nat
        } else {
            0nat
        }
    }
}

/// How many cells of `tiles` hold `t`.
pub open spec fn count_tile(tiles: Seq<TileType>, t: TileType) -> nat
    decreases tiles.len(),
{
    if tiles.len() == 0 {
        0
    } else {
        count_tile(tiles.drop_last(), t) + if tiles.last() == t {
            1nat
        } else {
            0nat
        }
    }
}

proof fn lemma_count_char_concat(a: Seq<char>, b: Seq<char>, c: char)
    ensures
        count_char(a + b, c) == count_char(a, c) + count_char(b, c),
    decreases b.len(),
{
    if b.len() == 0 {
        assert(a + b =~= a);
    } else {
        assert((a + b).drop_last() =~= a + b.drop_last());
        lemma_count_char_concat(a, b.drop_last(), c);
    }
}

/// Splitting into rows keeps every character but the newlines.
proof fn lemma_split_keeps_chars(s: Seq<char>, c: char)
    requires
        c != '\n',
    ensures
        ({
            let (done, open) = split_rows(s);
            count_char(s, c) == count_char(concat_rows(done), c) + count_char(open, c)
        }),
    decreases s.len(),
{
    if s.len() > 0 {
        lemma_split_keeps_chars(s.drop_last(), c);
        let (done, open) = split_rows(s.drop_last());
        if s.last() == '\n' {
            if open.len() > 0 {
                let nd = done.push(open);
                assert(nd.drop_last() =~= done);
                lemma_count_char_concat(concat_rows(done), open, c);
            }
        } else {
            assert(open.push(s.last()).drop_last() =~= open);
        }
    }
}

proof fn lemma_rows_keep_chars(s: Seq<char>, c: char)
    requires
        c != '\n',
    ensures
        count_char(concat_rows(rows_of(s)), c) == count_char(s, c),
{
    lemma_split_keeps_chars(s, c);
    let (done, open) = split_rows(s);
    if open.len() > 0 {
        assert(done.push(open).drop_last() =~= done);
        lemma_count_char_concat(concat_rows(done), open, c);
    }
}

proof fn lemma_count_tiles_of(cs: Seq<char>, c: char, t: TileType)
    requires
        forall|x: char| tile_of_char(x) == t <==> x == c,
    ensures
        count_tile(tiles_of(cs), t) == count_char(cs, c),
    decreases cs.len(),
{
    if cs.len() > 0 {
        assert(tiles_of(cs).drop_last() =~= tiles_of(cs.drop_last()));
        lemma_count_tiles_of(cs.drop_last(), c, t);
    }
}

/// A description that fits a `width` by `height` grid and holds one `p` and
/// one `t` gives a grid of `width * height` cells with exactly one player
/// cell and one teleporter cell.
pub proof fn lemma_build_counts(s: Seq<char>, width: nat, height: nat)
    requires
        descriptor_fits(s, width, height),
        count_char(s, 'p') == 1,
        count_char(s, 't') == 1,
    ensures
        cells_of(s).len() == width * height,
        count_tile(cells_of(s), TileType::Player) == 1,
        count_tile(cells_of(s), TileType::Teleport) == 1,
{
    let rows = rows_of(s);
    lemma_concat_len(rows, width);
    assert(height * width == width * height) by (nonlinear_arith);
    lemma_rows_keep_chars(s, 'p');
    lemma_rows_keep_chars(s, 't');
    lemma_count_tiles_of(concat_rows(rows), 'p', TileType::Player);
    lemma_count_tiles_of(concat_rows(rows), 't', TileType::Teleport);
}

impl TileMap {
    /// The grid has exactly `width * height` tiles.
    pub open spec fn wf(&self) -> bool {
        self.tiles@.len() == self.width * self.height
    }

    /// A `width` by `height` grid of floor.
    pub fn new(width: usize, height: usize) -> (r: TileMap)
        requires
            width * height <= usize::MAX,
        ensures
            r.wf(),
            r.width == width,
            r.height == height,
            forall|i: int| 0 <= i < r.tiles@.len() ==> r.tiles@[i] == TileType::Floor,
    {
        let n: usize = width * height;
        let mut tiles: Vec<TileType> = Vec::new();
        let mut i: usize = 0;
        while i < n
            invariant
                i <= n,
                tiles@.len() == i,
                forall|j: int| 0 <= j < i ==> tiles@[j] == TileType::Floor,
            decreases n - i,
        {
            tiles.push(TileType::Floor);
            i = i + 1;
        }
        TileMap { width, height, tiles }
    }

    /// The tile at column `x` of row `y`.
    pub fn tile_at(&self, x: usize, y: usize) -> (r: TileType)
        requires
            self.wf(),
            x < self.width,
            y < self.height,
        ensures
            r == self.tiles@[y * self.width + x],
    {
        proof {
            let (w, h) = (self.width as int, self.height as int);
            assert(y * w + x < w * h) by (nonlinear_arith)
                requires
                    0 <= x < w,
                    0 <= y < h,
            ;
        }
        let cells: usize = self.tiles.len();
        proof {
            assert(y * self.width <= y * self.width + x);
        }
        let i: usize = y * self.width + x;
        assert(i < cells);
        self.tiles[i]
    }

    /// Reads a level description: lines of `width` characters, `height` of
    /// them, empty lines skipped. `#` is a wall, `o` a potion, `p` the
    /// player, `t` the teleporter, and anything else floor.
    pub fn build(descriptor: &str, width: usize, height: usize) -> (r: Result<TileMap, MapError>)
        ensures
            descriptor_fits(descriptor@, width as nat, height as nat) <==> r is Ok,
            !descriptor_fits(descriptor@, width as nat, height as nat) ==> r == Err::<
                TileMap,
                MapError,
            >(MapError::MalformedDescriptor),
            r matches Ok(m) ==> {
                &&& m.wf()
                &&& m.width == width
                &&& m.height == height
                &&& m.tiles@ == cells_of(descriptor@)
                &&& forall|x: int, y: int|
                    0 <= x < width && 0 <= y < height ==> m.tiles@[y * width + x] == tile_of_char(
                        rows_of(descriptor@)[y][x],
                    )
            },
    {
        let n: usize = descriptor.unicode_len();
        let mut tiles: Vec<TileType> = Vec::new();
        let mut rows_done: usize = 0;
        let mut open_len: usize = 0;
        let mut ok: bool = true;
        let ghost mut done: Seq<Seq<char>> = seq![];
        let ghost mut open: Seq<char> = seq![];
        let mut i: usize = 0;
        while i < n
            invariant
                n == descriptor@.len(),
                i <= n,
                (done, open) == split_rows(descriptor@.take(i as int)),
                rows_done == done.len(),
                open_len == open.len(),
                rows_done + open_len <= i,
                tiles@ == tiles_of(concat_rows(done)) + tiles_of(open),
                ok == (rows_done <= height && forall|j: int|
                    0 <= j < done.len() ==> (#[trigger] done[j]).len() == width),
            decreases n - i,
        {
            let c: char = descriptor.get_char(i);
            proof {
                let s = descriptor@;
                assert(s.take(i + 1).drop_last() =~= s.take(i as int));
                assert(s.take(i + 1).last() == c);
            }
            if c == '\n' {
                if open_len > 0 {
                    proof {
                        let nd = done.push(open);
                        assert(nd.drop_last() =~= done);
                        assert(concat_rows(nd) == concat_rows(done) + open);
                        assert(tiles_of(concat_rows(done) + open) =~= tiles_of(concat_rows(done))
                            + tiles_of(open));
                        if ok && open_len == width && rows_done < height {
                            assert forall|j: int| 0 <= j < nd.len() implies (#[trigger] nd[j]).len()
                                == width by {
                                if j < done.len() {
                                    assert(nd[j] == done[j]);
                                }
                            }
                        } else if open_len != width {
                            assert(nd[done.len() as int] == open);
                        }
                        done = nd;
                        open = seq![];
                    }
                    ok = ok && open_len == width && rows_done < height;
                    rows_done = rows_done + 1;
                    open_len = 0;
                    proof {
                        assert(tiles_of(open) =~= seq![]);
                        assert(tiles@ =~= tiles_of(concat_rows(done)) + tiles_of(open));
                    }
                }
            } else {
                tiles.push(TileType::from_char(c));
                proof {
                    let no = open.push(c);
                    assert(tiles_of(no) =~= tiles_of(open).push(tile_of_char(c)));
                    open = no;
                    assert(tiles@ =~= tiles_of(concat_rows(done)) + tiles_of(open));
                }
                open_len = open_len + 1;
            }
            i = i + 1;
        }
        proof {
            assert(descriptor@.take(n as int) =~= descriptor@);
        }
        let rows_total: usize = if open_len > 0 {
            rows_done + 1
        } else {
            rows_done
        };
        let last_ok: bool = open_len == 0 || open_len == width;
        if ok && last_ok && rows_total == height {
            proof {
                let rows = rows_of(descriptor@);
                if open_len > 0 {
                    assert(rows.drop_last() =~= done);
                    assert forall|j: int| 0 <= j < rows.len() implies (#[trigger] rows[j]).len()
                        == width by {
                        if j < done.len() {
                            assert(rows[j] == done[j]);
                        }
                    }
                    assert(concat_rows(rows) == concat_rows(done) + open);
                    assert(tiles_of(concat_rows(done) + open) =~= tiles_of(concat_rows(done))
                        + tiles_of(open));
                } else {
                    assert(tiles_of(open) =~= seq![]);
                    assert(tiles@ =~= tiles_of(concat_rows(done)));
                }
                assert(descriptor_fits(descriptor@, width as nat, height as nat));
                assert(tiles@ == cells_of(descriptor@));
                lemma_concat_len(rows, width as nat);
                assert(height * width == width * height) by (nonlinear_arith);
                assert forall|x: int, y: int|
                    0 <= x < width && 0 <= y < height implies tiles@[y * width + x]
                    == tile_of_char(rows[y][x]) by {
                    lemma_concat_index(rows, width as nat, x, y);
                    assert(y * width + x < height * width) by (nonlinear_arith)
                        requires
                            0 <= x < width,
                            0 <= y < height,
                    ;
                }
            }
            Ok(TileMap { width, height, tiles })
        } else {
            proof {
                let rows = rows_of(descriptor@);
                if !ok {
                    if rows_done > height {
                        assert(rows.len() >= done.len());
                    } else {
                        let j = choose|j: int| 0 <= j < done.len() && done[j].len() != width;
                        assert(rows[j] == done[j]);
                    }
                } else if !last_ok {
                    assert(rows[rows.len() - 1] == open);
                }
            }
            Err(MapError::MalformedDescriptor)
        }
    }
}

/// World position of the centre of cell `i` of a grid `width` cells wide:
/// one tile to the right per column, one tile down per row.
pub open spec fn cell_position(width: nat, i: int) -> Position {
    Position {
        x: (GRID_ORIGIN_X + (i % width as int) * TILE_SIZE) as i64,
        y: (GRID_ORIGIN_Y - (i / width as int) * TILE_SIZE) as i64,
    }
}

/// World positions of the cells that hold `t`, in grid order.
pub open spec fn positions_of(tiles: Seq<TileType>, t: TileType, width: nat) -> Seq<Position>
    decreases tiles.len(),
{
    if tiles.len() == 0 {
        seq![]
    } else {
        let rest = positions_of(tiles.drop_last(), t, width);
        if tiles.last() == t {
            rest.push(cell_position(width, tiles.len() - 1))
        } else {
            rest
        }
    }
}

/// The one position in `ps`, if there is exactly one.
pub open spec fn single(ps: Seq<Position>) -> Option<Position> {
    if ps.len() == 1 {
        Some(ps[0])
    } else {
        None
    }
}

/// World positions of the cells of `map` that hold `t`, in grid order.
pub fn positions(map: &TileMap, t: TileType) -> (r: Vec<Position>)
    requires
        map.wf(),
        map.tiles@.len() <= MAX_CELLS,
    ensures
        r@ == positions_of(map.tiles@, t, map.width as nat),
        forall|i: int| 0 <= i < r@.len() ==> crate::movement::within_limit(#[trigger] r@[i]),
{
    let n: usize = map.tiles.len();
    let mut r: Vec<Position> = Vec::new();
    let mut i: usize = 0;
    while i < n
        invariant
            map.wf(),
            n == map.tiles@.len(),
            n <= MAX_CELLS,
            i <= n,
            r@ == positions_of(map.tiles@.take(i as int), t, map.width as nat),
            forall|j: int| 0 <= j < r@.len() ==> crate::movement::within_limit(#[trigger] r@[j]),
        decreases n - i,
    {
        proof {
            let ts = map.tiles@;
            assert(ts.take(i + 1).drop_last() =~= ts.take(i as int));
            assert(map.width > 0) by (nonlinear_arith)
                requires
                    i < map.width * map.height,
            ;
        }
        if map.tiles[i] == t {
            let col: usize = i % map.width;
            let row: usize = i / map.width;
            proof {
                assert(row <= i && col <= i) by (nonlinear_arith)
                    requires
                        row == i / map.width,
                        col == i % map.width,
                        map.width > 0,
                ;
            }
            let position = Position {
                x: GRID_ORIGIN_X + col as i64 * TILE_SIZE,
                y: GRID_ORIGIN_Y - row as i64 * TILE_SIZE,
            };
            r.push(position);
        }
        i = i + 1;
    }
    proof {
        assert(map.tiles@.take(n as int) =~= map.tiles@);
    }
    r
}

/// The walls of the grid, which the player cannot pass.
pub fn spawn_map(map: &TileMap) -> (walls: Vec<Position>)
    requires
        map.wf(),
        map.tiles@.len() <= MAX_CELLS,
    ensures
        walls@ == positions_of(map.tiles@, TileType::Wall, map.width as nat),
        forall|i: int| 0 <= i < walls@.len() ==> crate::movement::within_limit(#[trigger] walls@[i]),
{
    positions(map, TileType::Wall)
}

/// The world of a level: its walls, its potions, and a player and a
/// teleporter where the grid has exactly one cell for each; the player
/// stands still.
pub fn spawn_assets(map: &TileMap) -> (w: World)
    requires
        map.wf(),
        map.tiles@.len() <= MAX_CELLS,
    ensures
        w.wf(),
        w.walls@ == positions_of(map.tiles@, TileType::Wall, map.width as nat),
        w.potions@ == positions_of(map.tiles@, TileType::Potion, map.width as nat),
        w.teleporter == single(positions_of(map.tiles@, TileType::Teleport, map.width as nat)),
        w.player == (match single(positions_of(map.tiles@, TileType::Player, map.width as nat)) {
            Some(p) => Some(Player { position: p, moveable: Moveable { speed: 0, direction: Direction::Stopped } }),
            None => None,
        }),
        w.player_state == PlayerState::Idle,
{
    let walls = spawn_map(map);
    let potions = positions(map, TileType::Potion);
    let players = positions(map, TileType::Player);
    let teleporters = positions(map, TileType::Teleport);
    let player = if players.len() == 1 {
        Some(Player { position: players[0], moveable: Moveable::new() })
    } else {
        None
    };
    let teleporter = if teleporters.len() == 1 {
        Some(teleporters[0])
    } else {
        None
    };
    World { player, teleporter, walls, potions, player_state: PlayerState::Idle }
}

} // verus!
