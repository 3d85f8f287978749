//! The tagged values the engine works with: the two grid alphabets, the game
//! status, the outcomes of the two commands, the recoverable errors, and the
//! derived per-cell display value.

use vstd::prelude::*;

verus! {

/// What a cell truly holds. Fixed at placement time; changed afterwards only
/// by the one relocation that first-click safety may perform.
#[derive(Clone, Copy, Debug, PartialEq, Eq, Structural)]
pub enum CellContent {
    Empty,
    Mine,
}

/// What the player sees of a cell. Mutated only by the click and flag commands.
#[derive(Clone, Copy, Debug, PartialEq, Eq, Structural)]
pub enum Visibility {
    Hidden,
    Flagged,
    Revealed,
}

/// The game's phase. `Won` and `Lost` are terminal: once reached, no command
/// mutates the board any further.
#[derive(Clone, Copy, Debug, PartialEq, Eq, Structural)]
pub enum GameStatus {
    Playing,
    Won,
    Lost,
}

/// What a successful click did: opened a safe cell (carrying its adjacency
/// count; zero means a cascade ran), or hit a mine.
#[derive(Clone, Copy, Debug, PartialEq, Eq, Structural)]
pub enum ClickOutcome {
    Opened(u8),
    HitMine,
}

/// What a successful flag command did.
#[derive(Clone, Copy, Debug, PartialEq, Eq, Structural)]
pub enum FlagOutcome {
    Flagged,
    Unflagged,
}

/// The recoverable ways a command can be rejected. None of them mutates the
/// board.
#[derive(Clone, Copy, Debug, PartialEq, Eq, Structural)]
pub enum GameError {
    /// The coordinates lie outside the board.
    OutOfBounds,
    /// The target cell's visibility does not admit the command: clicking a
    /// flagged or revealed cell, or flagging a revealed cell.
    Blocked,
    /// The game has already been won or lost.
    GameOver,
}

/// One cell of the derived player-facing view: hidden, flagged, or revealed
/// carrying either its adjacency count or the mine that was hit.
#[derive(Clone, Copy, Debug, PartialEq, Eq, Structural)]
pub enum CellView {
    Hidden,
    Flagged,
    Open(u8),
    Mine,
}

} // verus!
