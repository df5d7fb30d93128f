use vstd::prelude::*;

verus! {

/// Side of a chunk, in atoms. Must be divisible by 4.
pub const CHUNK_LENGHT: usize = 64;

/// Half the side of a chunk, in atoms.
pub const HALF_CHUNK_LENGHT: usize = CHUNK_LENGHT / 2;

/// Number of atoms in a chunk.
pub const CHUNK_LEN: usize = CHUNK_LENGHT * CHUNK_LENGHT;

/// Number of atoms in half a chunk.
pub const HALF_CHUNK_LEN: usize = CHUNK_LEN / 2;

/// Number of atoms in a quarter of a chunk.
pub const QUARTER_CHUNK_LEN: usize = CHUNK_LEN / 4;

/// How many atoms high a step may be for an actor to walk up it.
pub const UP_WALK_HEIGHT: usize = 3;

/// Terminal velocity of the player.
pub const PLAYER_TERM_VEL: u8 = 20;

/// Speed gained by a falling atom at each step.
pub const GRAVITY: u8 = 1;

/// Terminal velocity of a falling atom.
pub const ATOM_TERM_VEL: u8 = 20;

/// Frames an atom stays awake after it stopped moving.
pub const FRAMES_SLEEP: u8 = 1;

/// Width, in chunks, of the loaded area. Has to be even.
pub const LOAD_WIDTH: i32 = 32;

/// Height, in chunks, of the loaded area. Has to be even.
pub const LOAD_HEIGHT: i32 = 18;

} // verus!
