//! Laws that relate several commands, stated over the same transition
//! relations the command contracts use.

use vstd::prelude::*;

use crate::board::flag_clears;
use crate::board::flag_sets;
use crate::board::Board;
use crate::types::GameStatus;
use crate::types::Visibility;

verus! {

/// Flagging a hidden cell and then unflagging it again restores both the
/// visibility grid and the remaining-flag counter to their prior values,
/// provided the first toggle does not already end the game (a toggle that
/// completes the mine set wins, and a won game accepts no further command).
pub proof fn lemma_flag_toggle_restores(b0: Board, b1: Board, b2: Board, x: int, y: int)
    requires
        b0.wf(),
        b0.in_bounds(x, y),
        b0.vis_at(x, y) == Visibility::Hidden,
        flag_sets(b0, b1, x, y),
        b1.status == GameStatus::Playing,
        flag_clears(b1, b2, x, y),
    ensures
        b2.visibility@ == b0.visibility@,
        b2.remaining_flags == b0.remaining_flags,
{
    b0.lemma_idx_bounds(x, y);
    assert(b2.visibility@ =~= b0.visibility@);
}

/// Unflagging a flagged cell and then flagging it again restores both the
/// visibility grid and the remaining-flag counter to their prior values,
/// provided the first toggle does not already end the game.
pub proof fn lemma_unflag_toggle_restores(b0: Board, b1: Board, b2: Board, x: int, y: int)
    requires
        b0.wf(),
        b0.in_bounds(x, y),
        b0.vis_at(x, y) == Visibility::Flagged,
        flag_clears(b0, b1, x, y),
        b1.status == GameStatus::Playing,
        flag_sets(b1, b2, x, y),
    ensures
        b2.visibility@ == b0.visibility@,
        b2.remaining_flags == b0.remaining_flags,
{
    b0.lemma_idx_bounds(x, y);
    assert(b2.visibility@ =~= b0.visibility@);
}

/// A flag toggle after which the flagged cells are exactly the mine cells —
/// every mine flagged, no mine-free cell flagged — wins the game at that
/// very toggle, whatever unrelated flags were set and cleared before.
pub proof fn lemma_exact_flags_win(pre: Board, post: Board, x: int, y: int)
    requires
        flag_sets(pre, post, x, y),
        post.flags_match_mines(),
    ensures
        post.status == GameStatus::Won,
{
}

} // verus!
