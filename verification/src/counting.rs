//! Counting cells of the two grids: how many truth cells hold a mine, how
//! many visibility cells are flagged or hidden. The lemmas cover what the
//! board proofs need: bounds, the effect of a point update, the step from one
//! prefix to the next, and the empty-count criterion.

use vstd::prelude::*;

use crate::types::CellContent;
use crate::types::Visibility;

verus! {

/// The number of mine cells in a truth grid.
pub open spec fn count_mines(s: Seq<CellContent>) -> int
    decreases s.len(),
{
    if s.len() == 0 {
        0
    } else {
        count_mines(s.drop_last()) + if s.last() == CellContent::Mine {
            1int
        } else {
            0int
        }
    }
}

/// The number of flagged cells in a visibility grid.
pub open spec fn count_flagged(s: Seq<Visibility>) -> int
    decreases s.len(),
{
    if s.len() == 0 {
        0
    } else {
        count_flagged(s.drop_last()) + if s.last() == Visibility::Flagged {
            1int
        } else {
            0int
        }
    }
}

/// The number of hidden cells in a visibility grid.
pub open spec fn count_hidden(s: Seq<Visibility>) -> int
    decreases s.len(),
{
    if s.len() == 0 {
        0
    } else {
        count_hidden(s.drop_last()) + if s.last() == Visibility::Hidden {
            1int
        } else {
            0int
        }
    }
}

pub proof fn lemma_count_mines_bounds(s: Seq<CellContent>)
    ensures
        0 <= count_mines(s) <= s.len(),
    decreases s.len(),
{
    if s.len() > 0 {
        lemma_count_mines_bounds(s.drop_last());
    }
}

pub proof fn lemma_count_flagged_bounds(s: Seq<Visibility>)
    ensures
        0 <= count_flagged(s) <= s.len(),
    decreases s.len(),
{
    if s.len() > 0 {
        lemma_count_flagged_bounds(s.drop_last());
    }
}

pub proof fn lemma_count_hidden_bounds(s: Seq<Visibility>)
    ensures
        0 <= count_hidden(s) <= s.len(),
    decreases s.len(),
{
    if s.len() > 0 {
        lemma_count_hidden_bounds(s.drop_last());
    }
}

/// Replacing the cell at `i` adjusts the mine count by the difference of the
/// new and the old cell's being a mine.
pub proof fn lemma_count_mines_update(s: Seq<CellContent>, i: int, v: CellContent)
    requires
        0 <= i < s.len(),
    ensures
        count_mines(s.update(i, v)) == count_mines(s) + (if v == CellContent::Mine {
            1int
        } else {
            0int
        }) - (if s[i] == CellContent::Mine {
            1int
        } else {
            0int
        }),
    decreases s.len(),
{
    if i == s.len() - 1 {
        assert(s.update(i, v).drop_last() =~= s.drop_last());
    } else {
        assert(s.update(i, v).drop_last() =~= s.drop_last().update(i, v));
        lemma_count_mines_update(s.drop_last(), i, v);
    }
}

/// Replacing the cell at `i` adjusts the flagged count accordingly.
pub proof fn lemma_count_flagged_update(s: Seq<Visibility>, i: int, v: Visibility)
    requires
        0 <= i < s.len(),
    ensures
        count_flagged(s.update(i, v)) == count_flagged(s) + (if v == Visibility::Flagged {
            1int
        } else {
            0int
        }) - (if s[i] == Visibility::Flagged {
            1int
        } else {
            0int
        }),
    decreases s.len(),
{
    if i == s.len() - 1 {
        assert(s.update(i, v).drop_last() =~= s.drop_last());
    } else {
        assert(s.update(i, v).drop_last() =~= s.drop_last().update(i, v));
        lemma_count_flagged_update(s.drop_last(), i, v);
    }
}

/// Replacing the cell at `i` adjusts the hidden count accordingly.
pub proof fn lemma_count_hidden_update(s: Seq<Visibility>, i: int, v: Visibility)
    requires
        0 <= i < s.len(),
    ensures
        count_hidden(s.update(i, v)) == count_hidden(s) + (if v == Visibility::Hidden {
            1int
        } else {
            0int
        }) - (if s[i] == Visibility::Hidden {
            1int
        } else {
            0int
        }),
    decreases s.len(),
{
    if i == s.len() - 1 {
        assert(s.update(i, v).drop_last() =~= s.drop_last());
    } else {
        assert(s.update(i, v).drop_last() =~= s.drop_last().update(i, v));
        lemma_count_hidden_update(s.drop_last(), i, v);
    }
}

/// A grid with a mine on some cell counts at least one mine.
pub proof fn lemma_count_mines_pos(s: Seq<CellContent>, i: int)
    requires
        0 <= i < s.len(),
        s[i] == CellContent::Mine,
    ensures
        count_mines(s) >= 1,
    decreases s.len(),
{
    if i == s.len() - 1 {
        lemma_count_mines_bounds(s.drop_last());
    } else {
        lemma_count_mines_pos(s.drop_last(), i);
    }
}

/// Extending a prefix by one cell steps the mine count by that cell's being a
/// mine.
pub proof fn lemma_count_mines_take_step(s: Seq<CellContent>, i: int)
    requires
        0 <= i < s.len(),
    ensures
        count_mines(s.take(i + 1)) == count_mines(s.take(i)) + if s[i] == CellContent::Mine {
            1int
        } else {
            0int
        },
{
    assert(s.take(i + 1).drop_last() =~= s.take(i));
}

/// The mine count is zero exactly when no cell is a mine.
pub proof fn lemma_count_mines_zero(s: Seq<CellContent>)
    ensures
        count_mines(s) == 0 <==> (forall|i: int|
            0 <= i < s.len() ==> s[i] != CellContent::Mine),
    decreases s.len(),
{
    if s.len() > 0 {
        lemma_count_mines_zero(s.drop_last());
        lemma_count_mines_bounds(s.drop_last());
        assert(forall|i: int| 0 <= i < s.len() - 1 ==> s.drop_last()[i] == s[i]);
    }
}

/// The flagged count is zero exactly when no cell is flagged.
pub proof fn lemma_count_flagged_zero(s: Seq<Visibility>)
    ensures
        count_flagged(s) == 0 <==> (forall|i: int|
            0 <= i < s.len() ==> s[i] != Visibility::Flagged),
    decreases s.len(),
{
    if s.len() > 0 {
        lemma_count_flagged_zero(s.drop_last());
        lemma_count_flagged_bounds(s.drop_last());
        assert(forall|i: int| 0 <= i < s.len() - 1 ==> s.drop_last()[i] == s[i]);
    }
}

} // verus!
