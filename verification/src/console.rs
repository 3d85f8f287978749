//! The coordinate bookkeeping of the console front end: turning the 1-based
//! pair a player types into the engine's 0-based coordinates. Reading and
//! printing stay with the unverified driver.

use vstd::prelude::*;

use crate::types::GameError;

verus! {

/// The engine-side half of the console: pure input bookkeeping.
pub struct Console {}

impl Console {
    pub fn new() -> (c: Console) {
        Console {  }
    }

    /// Converts a 1-based coordinate pair, as the player types it, to the
    /// 0-based pair the board works with; a component below 1 is rejected.
    pub fn get_x_and_y(&self, x: u8, y: u8) -> (r: Result<(u8, u8), GameError>)
        ensures
            x >= 1 && y >= 1 ==> r == Ok::<(u8, u8), GameError>(((x - 1) as u8, (y - 1) as u8)),
            x < 1 || y < 1 ==> r == Err::<(u8, u8), GameError>(GameError::OutOfBounds),
    {
        if x < 1 || y < 1 {
            return Err(GameError::OutOfBounds);
        }
        Ok((x - 1, y - 1))
    }
}

} // verus!
