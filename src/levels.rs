use vstd::prelude::*;
use crate::map::{descriptor_fits, MapError, TileMap, MAP_NUM_TILES_HIGH, MAP_NUM_TILES_WIDE};

verus! {

/// How many levels the game has.
pub const LEVEL_COUNT: u8 = 10;

pub const LEVEL_1: &'static str = "
############
#.#.......##
#.#.....o.##
#.##..o....#
#..#o......#
#..#...###.#
#.o........#
#...p.t..o.#
############";

pub const LEVEL_2: &'static str = "
############
####.....p.#
###..#o#...#
##....#o...#
#....#o#o..#
#...#...#..#
#.........##
#t.......###
############";

pub const LEVEL_3: &'static str = "
############
#........#.#
#..##...##.#
#.o#.......#
#.....##...#
#.....o#.o.#
#.#o.......#
#.##p#t....#
############";

pub const LEVEL_4: &'static str = "
############
#..........#
##...#o....#
#...###....#
#.#.o#..#o.#
####p..###.#
#.#o....#o.#
#.....t..#.#
############";

pub const LEVEL_5: &'static str = "
############
#........#o#
#....o.....#
#..........#
##o#.#..#.##
#.#o#..#o#.#
#..........#
#..#p.t.#..#
############";

pub const LEVEL_6: &'static str = "
############
#.....##...#
#......#o#.#
#.#.#..o#..#
#.o#o..#.#.#
#.#.#......#
#..........#
#...t...p#.#
############";

pub const LEVEL_7: &'static str = "
############
#####......#
####......##
###o.#o....#
##o.###..o##
#....#..p###
##......####
#...t..#####
############";

pub const LEVEL_8: &'static str = "
############
#..........#
#..#o..##..#
#..###.o#o.#
#....#.....#
####.p.....#
###o..###..#
#.....t....#
############";

pub const LEVEL_9: &'static str = "
############
#..........#
#.##o..##..#
#.#.#.#o...#
#.#.#.o#o..#
#.#.#..o#..#
#.##p.##...#
#.....t....#
############";

pub const LEVEL_10: &'static str = "
############
#..........#
#..#..##...#
#.#.#..o#..#
#.o#o..#o..#
#.#.#..o#..#
#..#..##...#
#...t.p....#
############";

/// Why a level could not be loaded.
#[derive(Clone, Copy, Debug, PartialEq, Eq, Structural)]
pub enum LevelError {
    /// There is no level of that number.
    OutOfRange,
    /// The description of the level of that number is not a standard grid.
    MalformedDescriptor { level: u8 },
}

/// The descriptions of the levels, first level first.
pub struct LevelManager {
    pub maps: [&'static str; 10],
}

impl LevelManager {
    /// The game's levels, in order.
    pub fn new() -> (r: LevelManager)
        ensures
            r.maps@ == seq![
                LEVEL_1,
                LEVEL_2,
                LEVEL_3,
                LEVEL_4,
                LEVEL_5,
                LEVEL_6,
                LEVEL_7,
                LEVEL_8,
                LEVEL_9,
                LEVEL_10,
            ],
    {
        LevelManager {
            maps: [
                LEVEL_1,
                LEVEL_2,
                LEVEL_3,
                LEVEL_4,
                LEVEL_5,
                LEVEL_6,
                LEVEL_7,
                LEVEL_8,
                LEVEL_9,
                LEVEL_10,
            ],
        }
    }

    /// The description of level `level_number`, counted from 1.
    pub fn descriptor_for(&self, level_number: u8) -> (r: Result<&'static str, LevelError>)
        ensures
            1 <= level_number <= LEVEL_COUNT ==> r == Ok::<&'static str, LevelError>(
                self.maps@[level_number - 1],
            ),
            !(1 <= level_number <= LEVEL_COUNT) ==> r == Err::<&'static str, LevelError>(
                LevelError::OutOfRange,
            ),
    {
        if 1 <= level_number && level_number <= LEVEL_COUNT {
            Ok(self.maps[(level_number - 1) as usize])
        } else {
            Err(LevelError::OutOfRange)
        }
    }

    /// The standard grid of level `level_number`, counted from 1.
    pub fn load(&self, level_number: u8) -> (r: Result<TileMap, LevelError>)
        ensures
            !(1 <= level_number <= LEVEL_COUNT) ==> r == Err::<TileMap, LevelError>(
                LevelError::OutOfRange,
            ),
            1 <= level_number <= LEVEL_COUNT ==> {
                let s = self.maps@[level_number - 1]@;
                let fits = descriptor_fits(
                    s,
                    MAP_NUM_TILES_WIDE as nat,
                    MAP_NUM_TILES_HIGH as nat,
                );
                &&& fits <==> r is Ok
                &&& !fits ==> r == Err::<TileMap, LevelError>(
                    LevelError::MalformedDescriptor { level: level_number },
                )
                &&& r matches Ok(m) ==> {
                    &&& m.wf()
                    &&& m.width == MAP_NUM_TILES_WIDE
                    &&& m.height == MAP_NUM_TILES_HIGH
                    &&& m.tiles@ == crate::map::cells_of(s)
                }
            },
    {
        let descriptor = match self.descriptor_for(level_number) {
            Ok(d) => d,
            Err(e) => {
                return Err(e);
            },
        };
        match TileMap::build(
            descriptor,
            MAP_NUM_TILES_WIDE as usize,
            MAP_NUM_TILES_HIGH as usize,
        ) {
            Ok(m) => Ok(m),
            Err(MapError::MalformedDescriptor) => Err(
                LevelError::MalformedDescriptor { level: level_number },
            ),
        }
    }
}

/// Which level is being played, counted from 1.
#[derive(Clone, Copy, Debug, PartialEq, Eq, Structural)]
pub struct Level {
    number: u8,
}

/// What advancing the level counter led to.
#[derive(Clone, Copy, Debug, PartialEq, Eq, Structural)]
pub enum Progress {
    /// The next level, by number.
    Next(u8),
    /// The last level is done.
    Completed,
}

impl Level {
    /// The number of the level.
    pub closed spec fn number_spec(&self) -> u8 {
        self.number
    }

    /// The counter names a level of the game.
    pub open spec fn wf(&self) -> bool {
        1 <= self.number_spec() <= LEVEL_COUNT
    }

    /// The first level.
    pub fn new() -> (r: Level)
        ensures
            r.wf(),
            r.number_spec() == 1,
    {
        Level { number: 1 }
    }

    /// The number of the level being played.
    pub fn current(&self) -> (r: u8)
        ensures
            r == self.number_spec(),
    {
        self.number
    }

    /// Moves on to the next level; after the last one, stays there and says
    /// the game is completed.
    pub fn advance(&mut self) -> (r: Progress)
        requires
            old(self).wf(),
        ensures
            final(self).wf(),
            old(self).number_spec() < LEVEL_COUNT ==> {
                &&& final(self).number_spec() == old(self).number_spec() + 1
                &&& r == Progress::Next(final(self).number_spec())
            },
            old(self).number_spec() == LEVEL_COUNT ==> {
                &&& final(self).number_spec() == LEVEL_COUNT
                &&& r == Progress::Completed
            },
    {
        if self.number < LEVEL_COUNT {
            self.number = self.number + 1;
            Progress::Next(self.number)
        } else {
            Progress::Completed
        }
    }

    /// Back to the first level.
    pub fn reset(&mut self)
        ensures
            final(self).wf(),
            final(self).number_spec() == 1,
    {
        self.number = 1;
    }
}

} // verus!
