// The rules of a tile-grid puzzle game: a player slides through a walled
// maze, takes every potion of a level to move on to the next, and can swap
// places with a teleporter.
//
// `map` reads level descriptions into grids of tiles and places their cells
// in the world; `movement` advances the player each step, stops it against
// walls and takes the potions it touches; `levels` holds the game's levels
// and the counter of the level being played; `game` moves between screens.
use vstd::prelude::*;

pub mod game;
pub mod levels;
pub mod map;
pub mod movement;

verus! {

} // verus!
